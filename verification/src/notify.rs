//! `Notify,...` messages: text that the firmware wants the user to see.

use crate::text::{chars_of, join, join_from, owned, texts};
use vstd::prelude::*;

verus! {

/// A user-facing message from the firmware.
#[derive(Debug, PartialEq, Eq)]
pub struct MachineNotify {
    /// Notification type discriminator, the first argument on the wire.
    pub notification_type: String,
    /// Message text; `;` on the wire means a line break.
    pub message: String,
}

/// What a [`MachineNotify`] holds.
pub struct NotifyView {
    pub notification_type: Seq<char>,
    pub message: Seq<char>,
}

impl View for MachineNotify {
    type V = NotifyView;

    open spec fn view(&self) -> NotifyView {
        NotifyView { notification_type: self.notification_type@, message: self.message@ }
    }
}

impl Clone for MachineNotify {
    fn clone(&self) -> (r: Self)
        ensures
            r == *self,
    {
        MachineNotify {
            notification_type: self.notification_type.clone(),
            message: self.message.clone(),
        }
    }
}

/// `s` with every `from` replaced by `to`.
pub open spec fn replaced(s: Seq<char>, from: char, to: char) -> Seq<char> {
    Seq::new(
        s.len(),
        |i: int|
            if s[i] == from {
                to
            } else {
                s[i]
            },
    )
}

/// The text with every `from` replaced by `to`.
fn replace_char(s: &str, from: char, to: char) -> (r: String)
    ensures
        r@ == replaced(s@, from, to),
{
    let chars = chars_of(s);
    let mut out = String::new();
    for i in 0..chars.len()
        invariant
            chars@ == s@,
            out@ == replaced(s@, from, to).take(i as int),
    {
        if chars[i] == from {
            out.push(to);
        } else {
            out.push(chars[i]);
        }
        assert(out@ =~= replaced(s@, from, to).take(i + 1));
    }
    assert(replaced(s@, from, to).take(s@.len() as int) =~= replaced(s@, from, to));
    out
}

/// What a notification stands for: its type, and the other arguments joined
/// again with line breaks for semicolons.
pub open spec fn notify_message(args: Seq<Seq<char>>) -> Option<NotifyView> {
    if args.len() == 0 {
        None
    } else {
        Some(
            NotifyView {
                notification_type: args[0],
                message: replaced(join(args.skip(1), ','), ';', '\n'),
            },
        )
    }
}

/// The view of an optional message.
pub open spec fn opt_notify(v: Option<MachineNotify>) -> Option<NotifyView> {
    match v {
        Some(m) => Some(m@),
        None => None,
    }
}

impl MachineNotify {
    /// Builds the message from the arguments that follow the `Notify,`
    /// prefix: the first one is the type, the others are joined again with
    /// commas, and a semicolon becomes a line break. Nothing where there are
    /// no arguments.
    pub fn from_dispatch_args(args: &[&str]) -> (r: Option<Self>)
        ensures
            opt_notify(r) == notify_message(texts(args@)),
    {
        if args.len() == 0 {
            return None;
        }
        let joined = join_from(args, 1, ',');
        Some(
            MachineNotify {
                notification_type: owned(args[0]),
                message: replace_char(joined.as_str(), ';', '\n'),
            },
        )
    }
}

}
