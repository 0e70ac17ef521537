//! The command inbox's token language.
//!
//! External writers send one plain-text command per line; three tokens are
//! recognized and anything else is ignored by the reconciler.

use vstd::prelude::*;

verus! {

/// A recognized command token.
#[derive(Debug, Clone, Copy, PartialEq, Eq, Structural)]
pub enum Command {
    HideNotification,
    PrevNotification,
    NextNotification,
}

/// The bytes of the token that hides the current notification.
pub open spec fn hide_token() -> Seq<u8> {
    seq![104u8, 105u8, 100u8, 101u8, 95u8, 110u8, 111u8, 116u8, 105u8, 102u8, 105u8, 99u8, 97u8, 116u8, 105u8, 111u8, 110u8]
}

/// The bytes of the token that moves the cursor to the previous
/// notification.
pub open spec fn prev_token() -> Seq<u8> {
    seq![112u8, 114u8, 101u8, 118u8, 95u8, 110u8, 111u8, 116u8, 105u8, 102u8, 105u8, 99u8, 97u8, 116u8, 105u8, 111u8, 110u8]
}

/// The bytes of the token that moves the cursor to the next notification.
pub open spec fn next_token() -> Seq<u8> {
    seq![110u8, 101u8, 120u8, 116u8, 95u8, 110u8, 111u8, 116u8, 105u8, 102u8, 105u8, 99u8, 97u8, 116u8, 105u8, 111u8, 110u8]
}

/// Which command a line spells, if any.
pub open spec fn command_spec(s: Seq<u8>) -> Option<Command> {
    if s == hide_token() {
        Some(Command::HideNotification)
    } else if s == prev_token() {
        Some(Command::PrevNotification)
    } else if s == next_token() {
        Some(Command::NextNotification)
    } else {
        None
    }
}

/// Whether `s` spells the hide token.
fn is_hide(s: &[u8]) -> (r: bool)
    ensures
        r == (s@ == hide_token()),
{
    let r = s.len() == 17 && s[0] == 104 && s[1] == 105 && s[2] == 100 && s[3] == 101 && s[4] == 95 && s[5] == 110 && s[6] == 111 && s[7] == 116 && s[8] == 105 && s[9] == 102 && s[10] == 105 && s[11] == 99 && s[12] == 97 && s[13] == 116 && s[14] == 105 && s[15] == 111 && s[16] == 110;
    proof {
        if r {
            assert(s@ =~= hide_token());
        } else if s@ == hide_token() {
            assert(s@.len() == 17);
            assert(false);
        }
    }
    r
}

/// Whether `s` spells the previous-notification token.
fn is_prev(s: &[u8]) -> (r: bool)
    ensures
        r == (s@ == prev_token()),
{
    let r = s.len() == 17 && s[0] == 112 && s[1] == 114 && s[2] == 101 && s[3] == 118 && s[4] == 95 && s[5] == 110 && s[6] == 111 && s[7] == 116 && s[8] == 105 && s[9] == 102 && s[10] == 105 && s[11] == 99 && s[12] == 97 && s[13] == 116 && s[14] == 105 && s[15] == 111 && s[16] == 110;
    proof {
        if r {
            assert(s@ =~= prev_token());
        } else if s@ == prev_token() {
            assert(s@.len() == 17);
            assert(false);
        }
    }
    r
}

/// Whether `s` spells the next-notification token.
fn is_next(s: &[u8]) -> (r: bool)
    ensures
        r == (s@ == next_token()),
{
    let r = s.len() == 17 && s[0] == 110 && s[1] == 101 && s[2] == 120 && s[3] == 116 && s[4] == 95 && s[5] == 110 && s[6] == 111 && s[7] == 116 && s[8] == 105 && s[9] == 102 && s[10] == 105 && s[11] == 99 && s[12] == 97 && s[13] == 116 && s[14] == 105 && s[15] == 111 && s[16] == 110;
    proof {
        if r {
            assert(s@ =~= next_token());
        } else if s@ == next_token() {
            assert(s@.len() == 17);
            assert(false);
        }
    }
    r
}

/// Recognize a command line. An unrecognized line yields nothing and is
/// logged and ignored by the caller.
pub fn parse_command(line: &[u8]) -> (r: Option<Command>)
    ensures
        r == command_spec(line@),
{
    if is_hide(line) {
        Some(Command::HideNotification)
    } else if is_prev(line) {
        Some(Command::PrevNotification)
    } else if is_next(line) {
        Some(Command::NextNotification)
    } else {
        None
    }
}

} // verus!
