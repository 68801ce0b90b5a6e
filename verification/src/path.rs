//! Derivation paths: the steps from a master key to a child key, and their
//! text, `m` followed by one or more steps `/i` or `/i'`.

use vstd::prelude::*;
use crate::error::{Invalid, WalletError};

verus! {

/// The least index that is out of range: indices are below 2^31, and a
/// hardened step stands for its index plus this number.
pub const HARDENED_BIT: u32 = 0x8000_0000;

/// One step of a derivation path.
#[derive(Clone, Copy, Debug, PartialEq, Eq, Structural)]
pub struct ChildNumber {
    pub index: u32,
    pub hardened: bool,
}

/// A derivation path.
#[derive(Clone, Debug)]
pub struct DerivationPath {
    pub segments: Vec<ChildNumber>,
}

impl View for DerivationPath {
    type V = Seq<ChildNumber>;

    open spec fn view(&self) -> Seq<ChildNumber> {
        self.segments@
    }
}

/// Whether some step of the path is hardened.
pub open spec fn has_hardened(p: Seq<ChildNumber>) -> bool {
    exists|i: int| 0 <= i < p.len() && (#[trigger] p[i]).hardened
}

/// Whether every index of the path is in range.
pub open spec fn path_wf(p: Seq<ChildNumber>) -> bool {
    forall|i: int| 0 <= i < p.len() ==> (#[trigger] p[i]).index < HARDENED_BIT
}

/// The value of a decimal digit; None for any other character.
pub open spec fn digit_value(c: char) -> Option<int> {
    if c == '0' {
        Some(0)
    } else if c == '1' {
        Some(1)
    } else if c == '2' {
        Some(2)
    } else if c == '3' {
        Some(3)
    } else if c == '4' {
        Some(4)
    } else if c == '5' {
        Some(5)
    } else if c == '6' {
        Some(6)
    } else if c == '7' {
        Some(7)
    } else if c == '8' {
        Some(8)
    } else if c == '9' {
        Some(9)
    } else {
        None
    }
}

/// The decimal digit of value `d`.
pub open spec fn digit_char(d: int) -> char {
    if d == 0 {
        '0'
    } else if d == 1 {
        '1'
    } else if d == 2 {
        '2'
    } else if d == 3 {
        '3'
    } else if d == 4 {
        '4'
    } else if d == 5 {
        '5'
    } else if d == 6 {
        '6'
    } else if d == 7 {
        '7'
    } else if d == 8 {
        '8'
    } else {
        '9'
    }
}

/// The decimal numeral of `n`, without leading zeros.
pub open spec fn decimal(n: nat) -> Seq<char>
    decreases n,
{
    if n < 10 {
        seq![digit_char(n as int)]
    } else {
        decimal(n / 10).push(digit_char((n % 10) as int))
    }
}

/// The text of one step: its index, and an apostrophe if it is hardened.
pub open spec fn step_text(c: ChildNumber) -> Seq<char> {
    if c.hardened {
        decimal(c.index as nat).push('\'')
    } else {
        decimal(c.index as nat)
    }
}

/// The text of the steps, each behind a slash.
pub open spec fn steps_text(p: Seq<ChildNumber>) -> Seq<char>
    decreases p.len(),
{
    if p.len() == 0 {
        Seq::empty()
    } else {
        steps_text(p.drop_last()) + seq!['/'] + step_text(p.last())
    }
}

/// The text of a path: `m`, then the steps.
pub open spec fn path_text(p: Seq<ChildNumber>) -> Seq<char> {
    seq!['m'] + steps_text(p)
}

/// The place of the first character at or after `pos` that is no digit.
pub open spec fn digits_end(s: Seq<char>, pos: int) -> int
    decreases s.len() - pos,
{
    if pos >= s.len() || digit_value(s[pos]) is None {
        pos
    } else {
        digits_end(s, pos + 1)
    }
}

/// The number that the digits of `s` from `from` up to `to` spell.
pub open spec fn digits_number(s: Seq<char>, from: int, to: int) -> int
    decreases to - from,
{
    if to <= from {
        0
    } else {
        digits_number(s, from, to - 1) * 10 + digit_value(s[to - 1])->0
    }
}

/// Reads steps from `pos` on, behind the steps `done`: a slash, one or more
/// digits that spell an index below 2^31, and optionally an apostrophe; then
/// the end or the next step. At least one step must have been read at the
/// end.
pub open spec fn read_steps(s: Seq<char>, pos: int, done: Seq<ChildNumber>) -> Result<
    Seq<ChildNumber>,
    WalletError,
>
    decreases s.len() - pos,
    when pos >= 0
    via read_steps_ends
{
    if pos >= s.len() {
        if done.len() > 0 {
            Ok(done)
        } else {
            Err(WalletError::ValidationError(Invalid::PathSyntax))
        }
    } else if s[pos] != '/' {
        Err(WalletError::ValidationError(Invalid::PathSyntax))
    } else {
        let end = digits_end(s, pos + 1);
        if end == pos + 1 {
            Err(WalletError::ValidationError(Invalid::PathSyntax))
        } else if digits_number(s, pos + 1, end) >= HARDENED_BIT {
            Err(WalletError::ValidationError(Invalid::PathIndex))
        } else {
            let hardened = end < s.len() && s[end] == '\'';
            let step = ChildNumber { index: digits_number(s, pos + 1, end) as u32, hardened };
            read_steps(
                s,
                if hardened {
                    end + 1
                } else {
                    end
                },
                done.push(step),
            )
        }
    }
}

/// The digits of a step end within the text, so that reading goes on
/// further right.
#[via_fn]
proof fn read_steps_ends(s: Seq<char>, pos: int, done: Seq<ChildNumber>) {
    if pos < s.len() {
        lemma_digits_end_bounds(s, pos + 1);
    }
}

/// The path that the text `s` denotes: `s` is `m` followed by one or more
/// steps. A text of another form is rejected for its syntax, an index of
/// 2^31 or more for its range, whichever comes first in the text.
pub open spec fn parse_path(s: Seq<char>) -> Result<Seq<ChildNumber>, WalletError> {
    if s.len() >= 1 && s[0] == 'm' {
        read_steps(s, 1, Seq::empty())
    } else {
        Err(WalletError::ValidationError(Invalid::PathSyntax))
    }
}

/// Digits end at or after the place they are looked for, within the text,
/// and up to there all characters are digits.
pub proof fn lemma_digits_end_bounds(s: Seq<char>, pos: int)
    requires
        0 <= pos <= s.len(),
    ensures
        pos <= digits_end(s, pos) <= s.len(),
        forall|k: int| pos <= k < digits_end(s, pos) ==> digit_value(s[k]) is Some,
    decreases s.len() - pos,
{
    if pos < s.len() && digit_value(s[pos]) is Some {
        lemma_digits_end_bounds(s, pos + 1);
    }
}

/// Digits spell no negative number.
pub proof fn lemma_digits_number_bounds(s: Seq<char>, from: int, to: int)
    requires
        0 <= from <= to <= s.len(),
        forall|k: int| from <= k < to ==> digit_value(s[k]) is Some,
    ensures
        0 <= digits_number(s, from, to),
    decreases to - from,
{
    if to > from {
        lemma_digits_number_bounds(s, from, to - 1);
    }
}

/// The value of a decimal digit.
pub fn digit_of(c: char) -> (r: Option<u8>)
    ensures
        r is Some == digit_value(c) is Some,
        r is Some ==> r->0 == digit_value(c)->0,
{
    if c == '0' {
        Some(0)
    } else if c == '1' {
        Some(1)
    } else if c == '2' {
        Some(2)
    } else if c == '3' {
        Some(3)
    } else if c == '4' {
        Some(4)
    } else if c == '5' {
        Some(5)
    } else if c == '6' {
        Some(6)
    } else if c == '7' {
        Some(7)
    } else if c == '8' {
        Some(8)
    } else if c == '9' {
        Some(9)
    } else {
        None
    }
}

impl DerivationPath {
    /// The path that `text` denotes.
    pub fn parse(text: &str) -> (r: Result<DerivationPath, WalletError>)
        ensures
            match parse_path(text@) {
                Ok(p) => r is Ok && r->Ok_0@ == p && path_wf(p) && p.len() > 0,
                Err(e) => r == Err::<DerivationPath, WalletError>(e),
            },
    {
        let ghost s = text@;
        let len: usize = text.unicode_len();
        if len == 0 || text.get_char(0) != 'm' {
            return Err(WalletError::ValidationError(Invalid::PathSyntax));
        }
        let mut segments: Vec<ChildNumber> = Vec::new();
        let mut pos: usize = 1;
        while pos < len
            invariant
                1 <= pos <= len,
                len == s.len(),
                s == text@,
                path_wf(segments@),
                pos > 1 ==> segments.len() > 0,
                parse_path(s) == read_steps(s, pos as int, segments@),
            decreases len - pos,
        {
            if text.get_char(pos) != '/' {
                return Err(WalletError::ValidationError(Invalid::PathSyntax));
            }
            let start: usize = pos + 1;
            let mut end: usize = start;
            let mut value: u32 = 0;
            let mut more: bool = true;
            proof {
                lemma_digits_end_bounds(s, start as int);
            }
            while more && end < len
                invariant
                    start <= end <= len,
                    len == s.len(),
                    s == text@,
                    digits_end(s, start as int) == digits_end(s, end as int),
                    forall|k: int| start <= k < end ==> digit_value(s[k]) is Some,
                    value <= HARDENED_BIT,
                    value == if digits_number(s, start as int, end as int) >= HARDENED_BIT {
                        HARDENED_BIT as int
                    } else {
                        digits_number(s, start as int, end as int)
                    },
                    !more ==> digits_end(s, start as int) == end,
                decreases (len - end) + (if more { 1int } else { 0int }),
            {
                proof {
                    lemma_digits_number_bounds(s, start as int, end as int);
                }
                match digit_of(text.get_char(end)) {
                    Some(d) => {
                        let next: u64 = value as u64 * 10 + d as u64;
                        value = if next >= HARDENED_BIT as u64 {
                            HARDENED_BIT
                        } else {
                            next as u32
                        };
                        end += 1;
                    },
                    None => {
                        more = false;
                    },
                }
            }
            if end == start {
                return Err(WalletError::ValidationError(Invalid::PathSyntax));
            }
            if value >= HARDENED_BIT {
                return Err(WalletError::ValidationError(Invalid::PathIndex));
            }
            let hardened: bool = end < len && text.get_char(end) == '\'';
            segments.push(ChildNumber { index: value, hardened });
            pos = if hardened {
                end + 1
            } else {
                end
            };
        }
        if segments.len() == 0 {
            return Err(WalletError::ValidationError(Invalid::PathSyntax));
        }
        Ok(DerivationPath { segments })
    }
}


/// The text of the decimal digit `d`.
pub(crate) fn digit_str(d: u8) -> (r: &'static str)
    requires
        d < 10,
    ensures
        r@ == seq![digit_char(d as int)],
{
    proof {
        reveal_strlit("0");
        reveal_strlit("1");
        reveal_strlit("2");
        reveal_strlit("3");
        reveal_strlit("4");
        reveal_strlit("5");
        reveal_strlit("6");
        reveal_strlit("7");
        reveal_strlit("8");
        reveal_strlit("9");
    }
    let r = if d == 0 {
        "0"
    } else if d == 1 {
        "1"
    } else if d == 2 {
        "2"
    } else if d == 3 {
        "3"
    } else if d == 4 {
        "4"
    } else if d == 5 {
        "5"
    } else if d == 6 {
        "6"
    } else if d == 7 {
        "7"
    } else if d == 8 {
        "8"
    } else {
        "9"
    };
    assert(r@ =~= seq![digit_char(d as int)]);
    r
}

/// Appends the decimal numeral of `n`.
pub fn push_decimal(out: &mut String, n: u32)
    ensures
        final(out)@ == old(out)@ + decimal(n as nat),
    decreases n,
{
    if n < 10 {
        out.append(digit_str(n as u8));
    } else {
        push_decimal(out, n / 10);
        out.append(digit_str((n % 10) as u8));
        assert(out@ =~= old(out)@ + decimal(n as nat));
    }
}

/// Appends the text of the steps, each behind a slash.
pub fn push_steps(out: &mut String, steps: &Vec<ChildNumber>)
    ensures
        final(out)@ == old(out)@ + steps_text(steps@),
{
    proof {
        reveal_strlit("/");
        reveal_strlit("'");
    }
    let mut i: usize = 0;
    assert(out@ =~= old(out)@ + steps_text(steps@.take(0)));
    while i < steps.len()
        invariant
            i <= steps.len(),
            out@ == old(out)@ + steps_text(steps@.take(i as int)),
            "/"@ == seq!['/'],
            "'"@ == seq!['\''],
        decreases steps.len() - i,
    {
        let ghost before = out@;
        out.append("/");
        push_decimal(out, steps[i].index);
        if steps[i].hardened {
            out.append("'");
        }
        proof {
            assert(steps@.take(i + 1).drop_last() =~= steps@.take(i as int));
            assert(steps@.take(i + 1).last() == steps@[i as int]);
            assert(out@ =~= before + seq!['/'] + step_text(steps@[i as int]));
            assert(out@ =~= old(out)@ + steps_text(steps@.take(i + 1)));
        }
        i += 1;
    }
    assert(steps@.take(steps.len() as int) =~= steps@);
}

/// The step that the number `raw` stands for: below 2^31 a plain index,
/// from there on a hardened one.
pub open spec fn step_of(raw: u32) -> ChildNumber {
    if raw >= HARDENED_BIT {
        ChildNumber { index: (raw - HARDENED_BIT) as u32, hardened: true }
    } else {
        ChildNumber { index: raw, hardened: false }
    }
}

/// The number that stands for the step `c`.
pub open spec fn raw_of(c: ChildNumber) -> u32 {
    if c.hardened {
        (c.index + HARDENED_BIT) as u32
    } else {
        c.index
    }
}

/// The steps that the numbers `raw` stand for.
pub open spec fn steps_of(raw: Seq<u32>) -> Seq<ChildNumber> {
    Seq::new(raw.len(), |i: int| step_of(raw[i]))
}

/// The numbers that stand for the steps `p`.
pub open spec fn raws_of(p: Seq<ChildNumber>) -> Seq<u32> {
    Seq::new(p.len(), |i: int| raw_of(p[i]))
}

/// Steps in range stand for numbers that stand for them.
pub proof fn lemma_steps_raws(p: Seq<ChildNumber>)
    requires
        path_wf(p),
    ensures
        steps_of(raws_of(p)) == p,
{
    assert(steps_of(raws_of(p)) =~= p);
}

impl DerivationPath {
    /// The text of the path. A path of one or more steps in range reads
    /// back from it.
    pub fn as_string(&self) -> (r: String)
        ensures
            r@ == path_text(self@),
            path_wf(self@) && self@.len() > 0 ==> parse_path(r@) == Ok::<
                Seq<ChildNumber>,
                WalletError,
            >(self@),
    {
        proof {
            reveal_strlit("m");
            if path_wf(self@) && self@.len() > 0 {
                lemma_parse_path_text(self@);
            }
        }
        let mut out: String = String::new();
        out.append("m");
        push_steps(&mut out, &self.segments);
        assert(out@ =~= path_text(self@));
        out
    }

    /// A copy of the path.
    pub fn copy(&self) -> (r: DerivationPath)
        ensures
            r@ == self@,
    {
        let mut segments: Vec<ChildNumber> = Vec::new();
        let mut i: usize = 0;
        while i < self.segments.len()
            invariant
                i <= self.segments.len(),
                segments@ == self.segments@.take(i as int),
            decreases self.segments.len() - i,
        {
            segments.push(self.segments[i]);
            assert(self.segments@.take(i + 1) =~= self.segments@.take(i as int).push(
                self.segments@[i as int],
            ));
            i += 1;
        }
        assert(self.segments@.take(self.segments.len() as int) =~= self.segments@);
        DerivationPath { segments }
    }

    /// The path followed by the steps of `tail`.
    pub fn extend(&self, tail: &DerivationPath) -> (r: DerivationPath)
        ensures
            r@ == self@ + tail@,
    {
        let mut segments: Vec<ChildNumber> = self.copy().segments;
        let mut i: usize = 0;
        assert(segments@ =~= self@ + tail@.take(0));
        while i < tail.segments.len()
            invariant
                i <= tail.segments.len(),
                segments@ == self@ + tail@.take(i as int),
            decreases tail.segments.len() - i,
        {
            segments.push(tail.segments[i]);
            assert(segments@ =~= self@ + tail@.take(i + 1));
            i += 1;
        }
        assert(tail@.take(tail.segments.len() as int) =~= tail@);
        DerivationPath { segments }
    }

    /// The path that the numbers `raw` stand for.
    pub fn from_raw(raw: &Vec<u32>) -> (r: DerivationPath)
        ensures
            r@ == steps_of(raw@),
            path_wf(r@),
    {
        let mut segments: Vec<ChildNumber> = Vec::new();
        let mut i: usize = 0;
        while i < raw.len()
            invariant
                i <= raw.len(),
                segments.len() == i,
                forall|k: int| 0 <= k < i ==> segments@[k] == step_of(raw@[k]),
            decreases raw.len() - i,
        {
            let n: u32 = raw[i];
            let step = if n >= HARDENED_BIT {
                ChildNumber { index: n - HARDENED_BIT, hardened: true }
            } else {
                ChildNumber { index: n, hardened: false }
            };
            segments.push(step);
            i += 1;
        }
        assert(segments@ =~= steps_of(raw@));
        DerivationPath { segments }
    }

    /// Whether some step of the path is hardened.
    pub fn has_hardened_step(&self) -> (r: bool)
        ensures
            r == has_hardened(self@),
    {
        let mut i: usize = 0;
        while i < self.segments.len()
            invariant
                i <= self.segments.len(),
                forall|k: int| 0 <= k < i ==> !(#[trigger] self@[k]).hardened,
            decreases self.segments.len() - i,
        {
            if self.segments[i].hardened {
                return true;
            }
            i += 1;
        }
        false
    }

    /// The numbers that stand for the steps, if every index is in range.
    pub fn to_raw(&self) -> (r: Option<Vec<u32>>)
        ensures
            r is Some == path_wf(self@),
            r is Some ==> r->0@ == raws_of(self@),
    {
        let mut raw: Vec<u32> = Vec::new();
        let mut i: usize = 0;
        while i < self.segments.len()
            invariant
                i <= self.segments.len(),
                raw.len() == i,
                forall|k: int| 0 <= k < i ==> (#[trigger] self@[k]).index < HARDENED_BIT,
                forall|k: int| 0 <= k < i ==> raw@[k] == raw_of(self@[k]),
            decreases self.segments.len() - i,
        {
            let c = self.segments[i];
            if c.index >= HARDENED_BIT {
                return None;
            }
            raw.push(if c.hardened {
                c.index + HARDENED_BIT
            } else {
                c.index
            });
            i += 1;
        }
        assert(raw@ =~= raws_of(self@));
        Some(raw)
    }
}


/// A decimal numeral has at least one character, and all are digits.
pub proof fn lemma_decimal_digits(n: nat)
    ensures
        decimal(n).len() >= 1,
        forall|k: int| 0 <= k < decimal(n).len() ==> digit_value(#[trigger] decimal(n)[k]) is Some,
    decreases n,
{
    if n >= 10 {
        lemma_decimal_digits(n / 10);
        let head = decimal(n / 10);
        let d = digit_char((n % 10) as int);
        assert(digit_value(d) is Some);
        assert forall|k: int| 0 <= k < decimal(n).len() implies digit_value(
            #[trigger] decimal(n)[k],
        ) is Some by {
            if k < head.len() {
                assert(decimal(n)[k] == head[k]);
            }
        }
    } else {
        assert(digit_value(digit_char(n as int)) is Some);
    }
}

/// Where the numeral of `n` stands in `s` from `from` on, its digits spell
/// `n`.
pub proof fn lemma_digits_number_of(s: Seq<char>, from: int, n: nat)
    requires
        0 <= from,
        from + decimal(n).len() <= s.len(),
        s.subrange(from, from + decimal(n).len()) == decimal(n),
    ensures
        digits_number(s, from, from + decimal(n).len()) == n,
    decreases n,
{
    let len = decimal(n).len() as int;
    let to = from + len;
    lemma_decimal_digits(n);
    assert(s[to - 1] == s.subrange(from, to)[len - 1]);
    if n >= 10 {
        let head = decimal(n / 10);
        assert(s.subrange(from, to - 1) =~= head) by {
            assert(s.subrange(from, to - 1) =~= s.subrange(from, to).drop_last());
            assert(decimal(n).drop_last() =~= head);
        }
        lemma_digits_number_of(s, from, n / 10);
        assert(decimal(n)[len - 1] == digit_char((n % 10) as int));
        assert(digit_value(digit_char((n % 10) as int)) == Some((n % 10) as int));
    } else {
        assert(len == 1);
        assert(decimal(n)[0] == digit_char(n as int));
        assert(digit_value(digit_char(n as int)) == Some(n as int));
        assert(digits_number(s, from, from) == 0);
    }
}

/// Where digits stand in `s` from `from` up to `to` and no digit follows,
/// the digits end at `to`.
pub proof fn lemma_digits_end_at(s: Seq<char>, from: int, to: int)
    requires
        0 <= from <= to <= s.len(),
        forall|k: int| from <= k < to ==> digit_value(#[trigger] s[k]) is Some,
        to == s.len() || digit_value(s[to]) is None,
    ensures
        digits_end(s, from) == to,
    decreases to - from,
{
    if from < to {
        lemma_digits_end_at(s, from + 1, to);
    }
}

/// The text of the steps `q` with the step `c` in front.
pub proof fn lemma_steps_text_front(c: ChildNumber, q: Seq<ChildNumber>)
    ensures
        steps_text(seq![c] + q) == seq!['/'] + step_text(c) + steps_text(q),
    decreases q.len(),
{
    let all = seq![c] + q;
    if q.len() == 0 {
        assert(all.len() == 1);
        assert(all.last() == c);
        assert(all.drop_last().len() == 0);
        assert(steps_text(all.drop_last()) =~= Seq::<char>::empty());
        assert(steps_text(q) =~= Seq::<char>::empty());
        assert(steps_text(all) =~= seq!['/'] + step_text(c) + steps_text(q));
    } else {
        lemma_steps_text_front(c, q.drop_last());
        assert(all.drop_last() =~= seq![c] + q.drop_last());
        assert(all.last() == q.last());
        assert(steps_text(all) =~= seq!['/'] + step_text(c) + steps_text(q));
    }
}

/// The text of steps is empty or starts with a slash.
pub proof fn lemma_steps_text_starts(q: Seq<ChildNumber>)
    ensures
        q.len() == 0 ==> steps_text(q).len() == 0,
        q.len() > 0 ==> steps_text(q).len() > 0 && steps_text(q)[0] == '/',
{
    if q.len() > 0 {
        assert(seq![q[0]] + q.drop_first() =~= q);
        lemma_steps_text_front(q[0], q.drop_first());
    }
}

/// Where the text of the steps `q` stands in `s` from `pos` to the end,
/// reading from `pos` on gives the steps read before and `q`.
#[verifier::spinoff_prover]
#[verifier::rlimit(80)]
pub proof fn lemma_read_steps_of(s: Seq<char>, pos: int, done: Seq<ChildNumber>, q: Seq<ChildNumber>)
    requires
        0 <= pos <= s.len(),
        s.skip(pos) == steps_text(q),
        path_wf(q),
        done.len() + q.len() > 0,
    ensures
        read_steps(s, pos, done) == Ok::<Seq<ChildNumber>, WalletError>(done + q),
    decreases q.len(),
{
    lemma_steps_text_starts(q);
    if q.len() == 0 {
        assert(s.skip(pos).len() == 0);
        assert(done + q =~= done);
    } else {
        let c = q[0];
        let tail = q.drop_first();
        assert(seq![c] + tail =~= q);
        lemma_steps_text_front(c, tail);
        lemma_steps_text_starts(tail);
        let num = decimal(c.index as nat);
        lemma_decimal_digits(c.index as nat);
        let from = pos + 1;
        let to = from + num.len();
        let text = steps_text(q);
        assert(text =~= seq!['/'] + step_text(c) + steps_text(tail));
        assert(s[pos] == text[0]);
        assert(s.subrange(from, to) =~= num) by {
            assert forall|k: int| 0 <= k < num.len() implies s.subrange(from, to)[k] == num[k] by {
                assert(s[from + k] == text[1 + k]);
                assert(step_text(c)[k] == num[k]);
            }
        }
        assert forall|k: int| from <= k < to implies digit_value(#[trigger] s[k]) is Some by {
            assert(s[k] == s.subrange(from, to)[k - from]);
        }
        let next = if c.hardened {
            to + 1
        } else {
            to
        };
        if c.hardened {
            assert(step_text(c).len() == num.len() + 1);
            assert(s[to] == text[1 + num.len() as int]);
            assert(step_text(c)[num.len() as int] == '\'');
            assert(digit_value(s[to]) is None);
        } else {
            assert(step_text(c) =~= num);
            if to < s.len() {
                assert(s[to] == text[1 + num.len() as int]);
                assert(steps_text(tail).len() > 0);
                assert(text[1 + num.len() as int] == steps_text(tail)[0]);
                assert(s[to] == '/');
                assert(digit_value(s[to]) is None);
            }
        }
        lemma_digits_end_at(s, from, to);
        lemma_digits_number_of(s, from, c.index as nat);
        assert(s.skip(next) =~= steps_text(tail)) by {
            assert(s.skip(next) =~= text.skip(1 + step_text(c).len() as int));
        }
        assert(path_wf(tail)) by {
            assert forall|k: int| 0 <= k < tail.len() implies (#[trigger] tail[k]).index
                < HARDENED_BIT by {
                assert(tail[k] == q[k + 1]);
            }
        }
        assert(q[0].index < HARDENED_BIT);
        lemma_read_steps_of(s, next, done.push(c), tail);
        assert(done.push(c) + tail =~= done + q);
        if !c.hardened && to < s.len() {
            assert(s[to] != '\'');
        }
    }
}

/// A path of one or more steps in range reads back from its text.
pub proof fn lemma_parse_path_text(p: Seq<ChildNumber>)
    requires
        path_wf(p),
        p.len() > 0,
    ensures
        parse_path(path_text(p)) == Ok::<Seq<ChildNumber>, WalletError>(p),
{
    let s = path_text(p);
    assert(s[0] == 'm');
    assert(s.skip(1) =~= steps_text(p));
    lemma_read_steps_of(s, 1, Seq::empty(), p);
    assert(Seq::<ChildNumber>::empty() + p =~= p);
}

} // verus!
