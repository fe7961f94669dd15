//! `Log,...` messages: firmware log lines, optionally with `key=value` items
//! and a flag that routes them to Sentry.

use crate::items::LogItems;
use crate::letters::{lower, lowercase};
use crate::text::{join, join_from, owned, same_text, split, split_text, texts};
use vstd::prelude::*;

verus! {

/// A parsed firmware log line.
#[derive(Debug, PartialEq, Eq)]
pub struct EspLog {
    /// Log level in lower case (`debug`, `info`, `warning`, `error`, ...).
    pub level: String,
    /// The message itself, the second argument alone.
    pub message: String,
    /// Everything after the level, joined again with commas.
    pub full_message: String,
    /// The `key=value` items after the message without the `sentry` flag;
    /// nothing where the line had no item arguments at all.
    pub items_filtered: Option<LogItems>,
    /// Whether the line goes to Sentry: a `sentry=true` item, or level
    /// `error`.
    pub send_to_sentry: bool,
}

/// What an [`EspLog`] holds.
#[verifier::ext_equal]
pub struct LogView {
    pub level: Seq<char>,
    pub message: Seq<char>,
    pub full_message: Seq<char>,
    pub items_filtered: Option<Map<Seq<char>, Seq<char>>>,
    pub send_to_sentry: bool,
}

/// The view of optional items.
pub open spec fn opt_items(v: Option<LogItems>) -> Option<Map<Seq<char>, Seq<char>>> {
    match v {
        Some(m) => Some(m@),
        None => None,
    }
}

impl View for EspLog {
    type V = LogView;

    open spec fn view(&self) -> LogView {
        LogView {
            level: self.level@,
            message: self.message@,
            full_message: self.full_message@,
            items_filtered: opt_items(self.items_filtered),
            send_to_sentry: self.send_to_sentry,
        }
    }
}

impl Clone for EspLog {
    fn clone(&self) -> (r: Self)
        ensures
            r@ == self@,
            self.wf() ==> r.wf(),
    {
        EspLog {
            level: self.level.clone(),
            message: self.message.clone(),
            full_message: self.full_message.clone(),
            items_filtered: match &self.items_filtered {
                Some(items) => Some(items.clone()),
                None => None,
            },
            send_to_sentry: self.send_to_sentry,
        }
    }
}

/// The item of one argument, which adds to the items before it: the text up
/// to the first `=` is the key, the text up to the next one is the value. An
/// argument without `=` is skipped, and the first value of a key stays.
pub open spec fn with_item(
    items: Map<Seq<char>, Seq<char>>,
    arg: Seq<char>,
) -> Map<Seq<char>, Seq<char>> {
    let parts = split(arg, '=');
    if parts.len() >= 2 && !items.contains_key(parts[0]) {
        items.insert(parts[0], parts[1])
    } else {
        items
    }
}

/// The items of a list of arguments.
pub open spec fn items_of(args: Seq<Seq<char>>) -> Map<Seq<char>, Seq<char>>
    decreases args.len(),
{
    if args.len() == 0 {
        Map::empty()
    } else {
        with_item(items_of(args.drop_last()), args.last())
    }
}

/// What a log message stands for.
pub open spec fn log_message(args: Seq<Seq<char>>) -> Option<LogView> {
    if args.len() < 2 {
        None
    } else {
        let level = lower(args[0]);
        let items = items_of(args.skip(2));
        let flagged = args.len() > 2 && items.contains_key("sentry"@) && items["sentry"@]
            == "true"@;
        Some(
            LogView {
                level,
                message: args[1],
                full_message: join(args.skip(1), ','),
                items_filtered: if args.len() > 2 {
                    Some(items.remove("sentry"@))
                } else {
                    None
                },
                send_to_sentry: flagged || level == "error"@,
            },
        )
    }
}

/// The view of an optional message.
pub open spec fn opt_log(v: Option<EspLog>) -> Option<LogView> {
    match v {
        Some(m) => Some(m@),
        None => None,
    }
}

/// The items of the arguments from index 2 on.
fn read_items(args: &[&str]) -> (r: LogItems)
    requires
        args@.len() >= 2,
    ensures
        r.wf(),
        r@ == items_of(texts(args@).skip(2)),
{
    let mut items = LogItems::new();
    let ghost wanted = texts(args@).skip(2);
    let mut i: usize = 2;
    while i < args.len()
        invariant
            2 <= i <= args@.len(),
            wanted == texts(args@).skip(2),
            items.wf(),
            items@ == items_of(wanted.take(i - 2)),
        decreases args@.len() - i,
    {
        let parts = split_text(args[i], '=');
        assert(wanted.take(i - 1).drop_last() =~= wanted.take(i - 2));
        assert(wanted.take(i - 1).last() == args@[i as int]@);
        assert(texts(parts@).len() == parts@.len());
        if parts.len() >= 2 {
            assert(texts(parts@)[0] == parts@[0]@ && texts(parts@)[1] == parts@[1]@);
            items.insert_if_absent(parts[0], parts[1]);
        }
        i = i + 1;
    }
    assert(wanted.take(wanted.len() as int) =~= wanted);
    items
}

impl EspLog {
    /// The items are in order.
    pub open spec fn wf(&self) -> bool {
        self.items_filtered matches Some(items) ==> items.wf()
    }

    /// Parses the arguments that follow the `Log,` prefix; nothing where
    /// there are fewer than two.
    pub fn from_args(args: &[&str]) -> (r: Option<Self>)
        ensures
            opt_log(r) == log_message(texts(args@)),
            r matches Some(log) ==> log.wf(),
    {
        if args.len() < 2 {
            return None;
        }
        let level = lowercase(args[0]);
        let full_message = join_from(args, 1, ',');
        let mut send_to_sentry = false;
        let mut items_filtered: Option<LogItems> = None;
        if args.len() > 2 {
            let mut items = read_items(args);
            match items.get("sentry") {
                Some(value) => {
                    send_to_sentry = same_text(value, "true");
                },
                None => {},
            }
            items.remove("sentry");
            items_filtered = Some(items);
        }
        if same_text(level.as_str(), "error") {
            send_to_sentry = true;
        }
        Some(EspLog { level, message: owned(args[1]), full_message, items_filtered, send_to_sentry })
    }
}

}
