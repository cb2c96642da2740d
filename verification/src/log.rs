//! The message log: an ordered list of (text, severity) pairs that gameplay
//! code appends to and the display layer renders.

use vstd::assert_seqs_equal;
use vstd::prelude::*;
use vstd::string::StringExecFns;

verus! {

/// Severity of one log entry; the display layer picks a color from it.
#[derive(Clone, Copy, Debug, PartialEq, Eq, Structural)]
pub enum MessageType {
    Alert,
    Info,
    StatusChange,
    Success,
}

/// The log itself: entries in the order they were added.
pub type Messages = Vec<(String, MessageType)>;

/// Appending to the log, one method per severity.
pub trait MessageLog {
    spec fn entries(&self) -> Seq<(String, MessageType)>;

    fn add(&mut self, message: String, message_type: MessageType)
        ensures
            final(self).entries() == old(self).entries().push((message, message_type)),
    ;

    fn alert(&mut self, message: String)
        ensures
            final(self).entries() == old(self).entries().push((message, MessageType::Alert)),
    ;

    fn info(&mut self, message: String)
        ensures
            final(self).entries() == old(self).entries().push((message, MessageType::Info)),
    ;

    fn status_change(&mut self, message: String)
        ensures
            final(self).entries() == old(self).entries().push((
                message,
                MessageType::StatusChange,
            )),
    ;

    fn success(&mut self, message: String)
        ensures
            final(self).entries() == old(self).entries().push((message, MessageType::Success)),
    ;
}

/// The log after a call is the log before it with some entries appended.
pub open spec fn log_extends(m0: Seq<(String, MessageType)>, m1: Seq<(String, MessageType)>) -> bool {
    m1.len() >= m0.len() && m1.take(m0.len() as int) == m0
}

/// The entries a call appended to a log that grew from `m0` to `m1`.
pub open spec fn added_msgs(
    m0: Seq<(String, MessageType)>,
    m1: Seq<(String, MessageType)>,
) -> Seq<(String, MessageType)> {
    m1.skip(m0.len() as int)
}

/// An unchanged log extends itself by nothing.
pub proof fn lemma_log_same(m: Seq<(String, MessageType)>)
    ensures
        log_extends(m, m),
        added_msgs(m, m).len() == 0,
{
    assert(m.take(m.len() as int) =~= m);
}

/// Pushing one entry extends the log by exactly that entry.
pub proof fn lemma_log_push(m0: Seq<(String, MessageType)>, m1: Seq<(String, MessageType)>)
    requires
        m1.len() == m0.len() + 1,
        forall|k: int| 0 <= k < m0.len() ==> m1[k] == m0[k],
    ensures
        log_extends(m0, m1),
        added_msgs(m0, m1) == seq![m1.last()],
{
    assert(m1.take(m0.len() as int) =~= m0);
    assert(added_msgs(m0, m1) =~= seq![m1.last()]);
}

/// Extending a log twice extends it by the two additions in order.
pub proof fn lemma_log_trans(
    m0: Seq<(String, MessageType)>,
    m1: Seq<(String, MessageType)>,
    m2: Seq<(String, MessageType)>,
)
    requires
        log_extends(m0, m1),
        log_extends(m1, m2),
    ensures
        log_extends(m0, m2),
        added_msgs(m0, m2) == added_msgs(m0, m1) + added_msgs(m1, m2),
{
    assert(m2.take(m0.len() as int) =~= m0);
    assert(added_msgs(m0, m2) =~= added_msgs(m0, m1) + added_msgs(m1, m2));
}

/// `added` is exactly one entry with the given text and severity.
pub open spec fn one_msg(
    added: Seq<(String, MessageType)>,
    text: Seq<char>,
    mt: MessageType,
) -> bool {
    added.len() == 1 && added[0].0@ == text && added[0].1 == mt
}

/// The decimal digits of `n`, most significant first.
pub open spec fn dec_digits(n: nat) -> Seq<char>
    decreases n,
{
    if n < 10 {
        seq![dec_digit(n)]
    } else {
        dec_digits(n / 10).push(dec_digit(n % 10))
    }
}

/// The character for one decimal digit.
pub open spec fn dec_digit(d: nat) -> char {
    if d == 0 { '0' }
    else if d == 1 { '1' }
    else if d == 2 { '2' }
    else if d == 3 { '3' }
    else if d == 4 { '4' }
    else if d == 5 { '5' }
    else if d == 6 { '6' }
    else if d == 7 { '7' }
    else if d == 8 { '8' }
    else if d == 9 { '9' }
    else { ' ' }
}

/// The one-character string for a decimal digit.
fn dec_digit_str(d: u64) -> (r: &'static str)
    requires
        d < 10,
    ensures
        r@ == seq![dec_digit(d as nat)],
{
    if d == 0 {
        proof { reveal_strlit("0"); }
        "0"
    } else if d == 1 {
        proof { reveal_strlit("1"); }
        "1"
    } else if d == 2 {
        proof { reveal_strlit("2"); }
        "2"
    } else if d == 3 {
        proof { reveal_strlit("3"); }
        "3"
    } else if d == 4 {
        proof { reveal_strlit("4"); }
        "4"
    } else if d == 5 {
        proof { reveal_strlit("5"); }
        "5"
    } else if d == 6 {
        proof { reveal_strlit("6"); }
        "6"
    } else if d == 7 {
        proof { reveal_strlit("7"); }
        "7"
    } else if d == 8 {
        proof { reveal_strlit("8"); }
        "8"
    } else {
        proof { reveal_strlit("9"); }
        "9"
    }
}

/// Appends the decimal rendering of `n` to `s`.
pub fn push_u64_dec(s: &mut String, n: u64)
    ensures
        final(s)@ == old(s)@ + dec_digits(n as nat),
    decreases n,
{
    if n >= 10 {
        push_u64_dec(s, n / 10);
    }
    let digit: &str = dec_digit_str(n % 10);
    s.append(digit);
    proof {
        assert_seqs_equal!(s@ == old(s)@ + dec_digits(n as nat));
    }
}

impl MessageLog for Vec<(String, MessageType)> {
    open spec fn entries(&self) -> Seq<(String, MessageType)> {
        self@
    }

    fn add(&mut self, message: String, message_type: MessageType) {
        self.push((message, message_type));
    }

    fn alert(&mut self, message: String) {
        self.add(message, MessageType::Alert);
    }

    fn info(&mut self, message: String) {
        self.add(message, MessageType::Info);
    }

    fn status_change(&mut self, message: String) {
        self.add(message, MessageType::StatusChange);
    }

    fn success(&mut self, message: String) {
        self.add(message, MessageType::Success);
    }
}

} // verus!
