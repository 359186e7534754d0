//! Byte-range specifiers: the grammar of `bytes=<start>-[<end>]`, the rules
//! that decide whether a range can be served from a resource of known
//! length, and the executable resolver for both.

use vstd::prelude::*;
use crate::decimal::{
    all_digits, decimal_text, decimal_value, is_digit, is_numeral, lemma_decimal_round_trip,
    lemma_decimal_text_is_numeral, push_decimal, read_decimal,
};
use crate::text::chars_of;

verus! {

/// An inclusive range of byte positions, `start <= end`.
#[derive(Clone, Copy, Debug, PartialEq, Eq, Structural)]
pub struct ByteRange {
    pub start: u64,
    pub end: u64,
}

/// Why a range specifier was turned down.
#[derive(Clone, Copy, Debug, PartialEq, Eq, Structural)]
pub enum RejectReason {
    /// The text is not a range specifier of the supported grammar.
    Malformed,
    /// The first position lies at or behind the end of the resource.
    StartBeyondTotal,
    /// The last position lies at or behind the end of the resource.
    EndBeyondTotal,
    /// The first position lies behind the last.
    StartAfterEnd,
}

/// The range cannot be served; `total` is the length of the resource.
#[derive(Clone, Copy, Debug, PartialEq, Eq, Structural)]
pub struct RangeNotSatisfiable {
    pub total: u64,
    pub reason: RejectReason,
}

/// What a well-formed specifier asks for, before it is held against a length.
pub struct RangeRequest {
    pub start: nat,
    pub end: Option<nat>,
}

impl ByteRange {
    /// The range lies inside a resource of `total` bytes.
    pub open spec fn fits(self, total: u64) -> bool {
        self.start <= self.end < total
    }

    /// The number of positions in the range.
    pub open spec fn span(self) -> nat {
        (self.end - self.start + 1) as nat
    }

    /// The number of bytes the range covers.
    pub fn len(&self) -> (n: u64)
        requires
            self.start <= self.end < u64::MAX,
        ensures
            n == self.span(),
    {
        self.end - self.start + 1
    }
}

/// The unit that every supported specifier starts with.
pub open spec fn unit_prefix() -> Seq<char> {
    seq!['b', 'y', 't', 'e', 's', '=']
}

/// The position of the first `c` in `s`, or the length of `s` where `c` does
/// not occur.
pub open spec fn first_index(s: Seq<char>, c: char) -> int
    decreases s.len(),
{
    if s.len() == 0 || s[0] == c {
        0
    } else {
        1 + first_index(s.drop_first(), c)
    }
}

/// What the specifier `s` asks for. After the unit, only the text up to the
/// first comma counts: of a list of ranges the first is taken. That text is a
/// numeral, a dash, and a numeral or nothing.
pub open spec fn parse_range(s: Seq<char>) -> Option<RangeRequest> {
    if !unit_prefix().is_prefix_of(s) {
        None
    } else {
        let list = s.skip(6);
        let first = list.take(first_index(list, ','));
        let dash = first_index(first, '-');
        if dash >= first.len() {
            None
        } else {
            let start = first.take(dash);
            let end = first.skip(dash + 1);
            if start.len() == 0 || !all_digits(start) || !all_digits(end) {
                None
            } else {
                Some(
                    RangeRequest {
                        start: decimal_value(start),
                        end: if end.len() == 0 {
                            None
                        } else {
                            Some(decimal_value(end))
                        },
                    },
                )
            }
        }
    }
}

/// The range that `start` and `end` select from `total` bytes. An absent end
/// means the last byte. The first position is checked first, then the last,
/// then their order.
pub open spec fn judge(start: nat, end: Option<nat>, total: nat) -> Result<(nat, nat), RejectReason> {
    let last: int = match end {
        Some(e) => e as int,
        None => total - 1,
    };
    if start >= total {
        Err(RejectReason::StartBeyondTotal)
    } else if last >= total {
        Err(RejectReason::EndBeyondTotal)
    } else if start > last {
        Err(RejectReason::StartAfterEnd)
    } else {
        Ok((start, last as nat))
    }
}

/// The range that the specifier `s` selects from `total` bytes.
pub open spec fn resolve(s: Seq<char>, total: nat) -> Result<(nat, nat), RejectReason> {
    match parse_range(s) {
        None => Err(RejectReason::Malformed),
        Some(req) => judge(req.start, req.end, total),
    }
}

/// The result that stands for `outcome` on a resource of `total` bytes.
pub open spec fn verdict(outcome: Result<(nat, nat), RejectReason>, total: u64) -> Result<
    ByteRange,
    RangeNotSatisfiable,
> {
    match outcome {
        Ok((a, b)) => Ok(ByteRange { start: a as u64, end: b as u64 }),
        Err(reason) => Err(RangeNotSatisfiable { total, reason }),
    }
}

/// The specifier that asks for `start` through `end`, or through the last
/// byte where `end` is absent.
pub open spec fn range_text(start: nat, end: Option<nat>) -> Seq<char> {
    unit_prefix() + decimal_text(start) + seq!['-'] + match end {
        Some(e) => decimal_text(e),
        None => Seq::<char>::empty(),
    }
}

/// `first_index` is the one position before which `c` does not occur and at
/// which, inside `s`, it does.
pub proof fn lemma_first_index(s: Seq<char>, c: char, k: int)
    requires
        0 <= k <= s.len(),
        forall|i: int| 0 <= i < k ==> s[i] != c,
        k < s.len() ==> s[k] == c,
    ensures
        first_index(s, c) == k,
    decreases s.len(),
{
    if s.len() == 0 || s[0] == c {
    } else {
        let rest = s.drop_first();
        assert forall|i: int| 0 <= i < k - 1 implies rest[i] != c by {
            assert(rest[i] == s[i + 1]);
        }
        lemma_first_index(rest, c, k - 1);
    }
}

/// Every accepted range lies inside the resource, and its first position does
/// not lie behind its last. It starts where the request starts, and ends
/// where the request ends or, for an open request, at the last byte.
pub proof fn lemma_accepted_range_fits(start: nat, end: Option<nat>, total: nat)
    ensures
        judge(start, end, total) matches Ok((a, b)) ==> a == start && a <= b < total && (end
            matches Some(e) ==> b == e) && (end is None ==> b == total - 1),
{
}

/// A written specifier reads back as what was written.
pub proof fn lemma_range_text_parses(start: nat, end: Option<nat>)
    ensures
        parse_range(range_text(start, end)) == Some(RangeRequest { start, end }),
{
    let head = decimal_text(start);
    let tail = match end {
        Some(e) => decimal_text(e),
        None => Seq::<char>::empty(),
    };
    let s = range_text(start, end);
    lemma_decimal_text_is_numeral(start);
    lemma_decimal_round_trip(start);
    if let Some(e) = end {
        lemma_decimal_text_is_numeral(e);
        lemma_decimal_round_trip(e);
    }
    assert(unit_prefix().is_prefix_of(s));
    let list = s.skip(6);
    assert(list =~= head + seq!['-'] + tail);
    assert forall|i: int| 0 <= i < list.len() implies list[i] != ',' by {
        if i < head.len() {
            assert(is_digit(head[i]));
        } else if i > head.len() {
            assert(list[i] == tail[i - head.len() - 1]);
            assert(is_digit(tail[i - head.len() - 1]));
        }
    }
    lemma_first_index(list, ',', list.len() as int);
    let first = list.take(first_index(list, ','));
    assert(first =~= list);
    assert forall|i: int| 0 <= i < head.len() implies first[i] != '-' by {
        assert(is_digit(head[i]));
    }
    lemma_first_index(first, '-', head.len() as int);
    assert(first.take(head.len() as int) =~= head);
    assert(first.skip(head.len() as int + 1) =~= tail);
}

/// A specifier for positions that lie inside the resource, in order, is
/// accepted as written; an open one is accepted through the last byte.
pub proof fn lemma_valid_range_accepted(start: nat, end: Option<nat>, total: nat)
    requires
        start < total,
        end matches Some(e) ==> start <= e < total,
    ensures
        resolve(range_text(start, end), total) == Ok::<(nat, nat), RejectReason>(
            (
                start,
                match end {
                    Some(e) => e,
                    None => (total - 1) as nat,
                },
            ),
        ),
{
    lemma_range_text_parses(start, end);
}

/// A specifier whose first or last position lies outside the resource, or
/// whose first position lies behind its last, is rejected, whether the last
/// position was written or left open.
pub proof fn lemma_invalid_range_rejected(start: nat, end: Option<nat>, total: nat)
    requires
        ({
            let last: int = match end {
                Some(e) => e as int,
                None => total - 1,
            };
            start >= total || last >= total || start > last
        }),
    ensures
        judge(start, end, total) is Err,
        resolve(range_text(start, end), total) is Err,
{
    lemma_range_text_parses(start, end);
}

/// Holds `start` and `end` against a resource of `total` bytes.
pub fn check_bounds(start: u64, end: Option<u64>, total: u64) -> (r: Result<
    ByteRange,
    RangeNotSatisfiable,
>)
    ensures
        r == verdict(
            judge(
                start as nat,
                match end {
                    Some(e) => Some(e as nat),
                    None => None,
                },
                total as nat,
            ),
            total,
        ),
        r matches Ok(range) ==> range.fits(total),
{
    if start >= total {
        return Err(RangeNotSatisfiable { total, reason: RejectReason::StartBeyondTotal });
    }
    let last: u64 = match end {
        Some(e) => e,
        None => total - 1,
    };
    if last >= total {
        Err(RangeNotSatisfiable { total, reason: RejectReason::EndBeyondTotal })
    } else if start > last {
        Err(RangeNotSatisfiable { total, reason: RejectReason::StartAfterEnd })
    } else {
        Ok(ByteRange { start, end: last })
    }
}

/// The position of the first `c` in `text[from..to]`, or `to` where there is
/// none.
fn find_char(text: &Vec<char>, from: usize, to: usize, c: char) -> (at: usize)
    requires
        from <= to <= text@.len(),
    ensures
        from <= at <= to,
        at == from + first_index(text@.subrange(from as int, to as int), c),
{
    let ghost run = text@.subrange(from as int, to as int);
    let mut i: usize = from;
    while i < to
        invariant
            from <= i <= to <= text@.len(),
            run == text@.subrange(from as int, to as int),
            forall|j: int| 0 <= j < i - from ==> run[j] != c,
        decreases to - i,
    {
        if text[i] == c {
            proof {
                assert(run[i - from] == c);
                lemma_first_index(run, c, i - from);
            }
            return i;
        }
        assert(run[i - from] != c);
        i = i + 1;
    }
    proof {
        lemma_first_index(run, c, to - from);
    }
    to
}

/// Whether `text` starts with the unit.
fn has_unit_prefix(text: &Vec<char>) -> (ok: bool)
    ensures
        ok == unit_prefix().is_prefix_of(text@),
{
    if text.len() < 6 {
        return false;
    }
    let ok = text[0] == 'b' && text[1] == 'y' && text[2] == 't' && text[3] == 'e' && text[4] == 's'
        && text[5] == '=';
    proof {
        let p = unit_prefix();
        if ok {
            assert(text@.subrange(0, 6) =~= p);
        } else {
            if p.is_prefix_of(text@) {
                assert(text@.subrange(0, 6) == p);
                assert(text@.subrange(0, 6)[0] == p[0]);
                assert(text@.subrange(0, 6)[1] == p[1]);
                assert(text@.subrange(0, 6)[2] == p[2]);
                assert(text@.subrange(0, 6)[3] == p[3]);
                assert(text@.subrange(0, 6)[4] == p[4]);
                assert(text@.subrange(0, 6)[5] == p[5]);
            }
        }
    }
    ok
}

/// Resolves the range specifier `spec` against a resource of `total` bytes.
///
/// Accepts `bytes=<start>-<end>` and `bytes=<start>-`; of a comma-separated
/// list the first range is taken. Every other text, a suffix range
/// `bytes=-<n>` among them, is turned down as malformed. A range that reaches
/// outside the resource is turned down, never cut to size.
pub fn resolve_range(spec: &str, total: u64) -> (r: Result<ByteRange, RangeNotSatisfiable>)
    ensures
        r == verdict(resolve(spec@, total as nat), total),
        r matches Ok(range) ==> range.fits(total),
{
    let text = chars_of(spec);
    let malformed = Err(RangeNotSatisfiable { total, reason: RejectReason::Malformed });
    if !has_unit_prefix(&text) {
        return malformed;
    }
    let n: usize = text.len();
    let stop: usize = find_char(&text, 6, n, ',');
    let dash: usize = find_char(&text, 6, stop, '-');
    let ghost list = spec@.skip(6);
    let ghost first = list.take(first_index(list, ','));
    let ghost d = first_index(first, '-');
    proof {
        assert(text@.subrange(6, n as int) =~= list);
        assert(text@.subrange(6, stop as int) =~= first);
        assert(dash == 6 + d);
        assert(first.len() == stop - 6);
    }
    if dash >= stop {
        return malformed;
    }
    proof {
        assert(text@.subrange(6, dash as int) =~= first.take(d));
        assert(text@.subrange(dash + 1, stop as int) =~= first.skip(d + 1));
    }
    if !is_numeral(&text, 6, dash) {
        return malformed;
    }
    let open_ended: bool = dash + 1 == stop;
    if !open_ended && !is_numeral(&text, dash + 1, stop) {
        return malformed;
    }
    let start: u64 = match read_decimal(&text, 6, dash) {
        Some(v) => v,
        None => {
            return Err(RangeNotSatisfiable { total, reason: RejectReason::StartBeyondTotal });
        },
    };
    if open_ended {
        return check_bounds(start, None, total);
    }
    match read_decimal(&text, dash + 1, stop) {
        Some(end) => check_bounds(start, Some(end), total),
        None => {
            if start >= total {
                Err(RangeNotSatisfiable { total, reason: RejectReason::StartBeyondTotal })
            } else {
                Err(RangeNotSatisfiable { total, reason: RejectReason::EndBeyondTotal })
            }
        },
    }
}

/// Writes the specifier that asks for `start` through `end`, or through the
/// last byte where `end` is `None`.
pub fn write_range(start: u64, end: Option<u64>) -> (text: String)
    ensures
        text@ == range_text(
            start as nat,
            match end {
                Some(e) => Some(e as nat),
                None => None,
            },
        ),
{
    let mut text = String::new();
    proof {
        reveal_strlit("bytes=");
        reveal_strlit("-");
    }
    text.append("bytes=");
    assert(text@ =~= unit_prefix());
    push_decimal(&mut text, start);
    text.append("-");
    match end {
        Some(e) => {
            push_decimal(&mut text, e);
            assert(text@ =~= unit_prefix() + decimal_text(start as nat) + seq!['-'] + decimal_text(
                e as nat,
            ));
        },
        None => {
            assert(text@ =~= unit_prefix() + decimal_text(start as nat) + seq!['-']
                + Seq::<char>::empty());
        },
    }
    text
}

} // verus!
