use vstd::prelude::*;
use crate::errors::MidiPedalError;

verus! {

/// The ASCII whitespace bytes that a console line may carry around the
/// typed index: space, tab, line feed, vertical tab, form feed, carriage
/// return.
pub open spec fn is_ascii_whitespace(b: u8) -> bool {
    b == 32 || (9 <= b <= 13)
}

/// `s` with its leading whitespace removed.
pub open spec fn trim_front(s: Seq<u8>) -> Seq<u8>
    decreases s.len(),
{
    if s.len() > 0 && is_ascii_whitespace(s[0]) {
        trim_front(s.drop_first())
    } else {
        s
    }
}

/// `s` with its trailing whitespace removed.
pub open spec fn trim_back(s: Seq<u8>) -> Seq<u8>
    decreases s.len(),
{
    if s.len() > 0 && is_ascii_whitespace(s.last()) {
        trim_back(s.drop_last())
    } else {
        s
    }
}

/// `s` with leading and trailing whitespace removed.
pub open spec fn spec_trim(s: Seq<u8>) -> Seq<u8> {
    trim_back(trim_front(s))
}

pub open spec fn is_ascii_digit(b: u8) -> bool {
    48 <= b <= 57
}

pub open spec fn all_digits(s: Seq<u8>) -> bool {
    forall|i: int| 0 <= i < s.len() ==> is_ascii_digit(#[trigger] s[i])
}

/// The number a string of decimal digits denotes.
pub open spec fn digits_value(s: Seq<u8>) -> int
    decreases s.len(),
{
    if s.len() == 0 {
        0
    } else {
        10 * digits_value(s.drop_last()) + (s.last() - 48)
    }
}

/// A single leading plus sign is accepted before the digits.
pub open spec fn strip_plus(s: Seq<u8>) -> Seq<u8> {
    if s.len() > 0 && s[0] == 43 {
        s.drop_first()
    } else {
        s
    }
}

/// What parsing a console line as a non-negative integer yields: the line is
/// trimmed, an optional plus sign is stripped, and what remains must be one
/// or more decimal digits whose value fits in `usize`.
pub open spec fn spec_parse_index(line: Seq<u8>) -> Option<usize> {
    let d = strip_plus(spec_trim(line));
    if d.len() > 0 && all_digits(d) && digits_value(d) <= usize::MAX {
        Some(digits_value(d) as usize)
    } else {
        None
    }
}

/// What a console line selects among `port_count` ports: the parsed index if
/// it is in range, and `InvalidSelection` otherwise.
pub open spec fn spec_parse_selection(line: Seq<u8>, port_count: int) -> Result<
    usize,
    MidiPedalError,
> {
    match spec_parse_index(line) {
        Some(i) => if i < port_count {
            Ok(i)
        } else {
            Err(MidiPedalError::InvalidSelection)
        },
        None => Err(MidiPedalError::InvalidSelection),
    }
}

fn byte_is_whitespace(b: u8) -> (r: bool)
    ensures
        r == is_ascii_whitespace(b),
{
    b == 32 || (9 <= b && b <= 13)
}

proof fn lemma_digits_value_nonneg(s: Seq<u8>)
    requires
        all_digits(s),
    ensures
        digits_value(s) >= 0,
    decreases s.len(),
{
    if s.len() > 0 {
        assert(is_ascii_digit(s[s.len() - 1]));
        assert(all_digits(s.drop_last())) by {
            assert(forall|i: int|
                0 <= i < s.drop_last().len() ==> #[trigger] s.drop_last()[i] == s[i]);
        }
        lemma_digits_value_nonneg(s.drop_last());
    }
}

/// A digit string is worth at least any of its prefixes.
proof fn lemma_digits_value_take_le(s: Seq<u8>, k: int)
    requires
        all_digits(s),
        0 <= k <= s.len(),
    ensures
        digits_value(s.take(k)) <= digits_value(s),
    decreases s.len() - k,
{
    if k == s.len() {
        assert(s.take(k) =~= s);
    } else {
        let t = s.take(k + 1);
        assert(t.drop_last() =~= s.take(k));
        assert(t.last() == s[k]);
        assert(all_digits(s.take(k))) by {
            assert(forall|i: int| 0 <= i < k ==> #[trigger] s.take(k)[i] == s[i]);
        }
        lemma_digits_value_nonneg(s.take(k));
        assert(digits_value(t) == 10 * digits_value(s.take(k)) + (s[k] - 48));
        lemma_digits_value_take_le(s, k + 1);
    }
}

/// Removing leading whitespace one byte at a time reaches `trim_front`.
proof fn lemma_trim_front_skip(s: Seq<u8>, k: int)
    requires
        0 <= k <= s.len(),
        forall|j: int| 0 <= j < k ==> is_ascii_whitespace(#[trigger] s[j]),
    ensures
        trim_front(s) == trim_front(s.subrange(k, s.len() as int)),
    decreases k,
{
    if k == 0 {
        assert(s.subrange(0, s.len() as int) =~= s);
    } else {
        assert(is_ascii_whitespace(s[0]));
        let s1 = s.drop_first();
        assert(s1 =~= s.subrange(1, s.len() as int));
        lemma_trim_front_skip(s1, k - 1);
        assert(s1.subrange(k - 1, s1.len() as int) =~= s.subrange(k, s.len() as int));
    }
}

/// Removing trailing whitespace one byte at a time reaches `trim_back`.
proof fn lemma_trim_back_skip(s: Seq<u8>, k: int)
    requires
        0 <= k <= s.len(),
        forall|j: int| k <= j < s.len() ==> is_ascii_whitespace(#[trigger] s[j]),
    ensures
        trim_back(s) == trim_back(s.subrange(0, k)),
    decreases s.len() - k,
{
    if k == s.len() {
        assert(s.subrange(0, k) =~= s);
    } else {
        assert(is_ascii_whitespace(s.last()));
        let s1 = s.drop_last();
        assert(s1 =~= s.subrange(0, s.len() - 1));
        lemma_trim_back_skip(s1, k);
        assert(s1.subrange(0, k) =~= s.subrange(0, k));
    }
}

/// Parses a console line as the index of one of `port_count` ports, as the
/// prompt-and-parse step of port selection does when several ports exist.
/// The line is trimmed of surrounding whitespace and read as a non-negative
/// decimal integer; an unparsable line and an index at or past `port_count`
/// both yield `InvalidSelection`.
pub fn parse_port_index(line: &[u8], port_count: usize) -> (r: Result<usize, MidiPedalError>)
    ensures
        r == spec_parse_selection(line@, port_count as int),
{
    let n = line.len();
    let mut lo: usize = 0;
    while lo < n && byte_is_whitespace(line[lo])
        invariant
            0 <= lo <= n,
            n == line@.len(),
            forall|j: int| 0 <= j < lo ==> is_ascii_whitespace(#[trigger] line@[j]),
        decreases n - lo,
    {
        lo = lo + 1;
    }
    let mut hi: usize = n;
    while hi > lo && byte_is_whitespace(line[hi - 1])
        invariant
            0 <= lo <= hi <= n,
            n == line@.len(),
            forall|j: int| hi <= j < n ==> is_ascii_whitespace(#[trigger] line@[j]),
        decreases hi,
    {
        hi = hi - 1;
    }
    proof {
        lemma_trim_front_skip(line@, lo as int);
        let t = line@.subrange(lo as int, n as int);
        assert(trim_front(t) == t);
        lemma_trim_back_skip(t, hi - lo);
        assert(t.subrange(0, hi - lo) =~= line@.subrange(lo as int, hi as int));
        assert(trim_back(line@.subrange(lo as int, hi as int)) == line@.subrange(
            lo as int,
            hi as int,
        ));
        assert(spec_trim(line@) == line@.subrange(lo as int, hi as int));
    }
    let start: usize = if lo < hi && line[lo] == 43 {
        lo + 1
    } else {
        lo
    };
    let ghost d = line@.subrange(start as int, hi as int);
    proof {
        let t = line@.subrange(lo as int, hi as int);
        if lo < hi && line@[lo as int] == 43 {
            assert(t.drop_first() =~= d);
        } else {
            assert(t =~= d);
        }
        assert(strip_plus(spec_trim(line@)) == d);
    }
    if start == hi {
        return Err(MidiPedalError::InvalidSelection);
    }
    let mut value: usize = 0;
    let mut i: usize = start;
    while i < hi
        invariant
            start <= i <= hi,
            hi <= n,
            n == line@.len(),
            d == line@.subrange(start as int, hi as int),
            d == strip_plus(spec_trim(line@)),
            all_digits(line@.subrange(start as int, i as int)),
            value == digits_value(line@.subrange(start as int, i as int)),
        decreases hi - i,
    {
        let b = line[i];
        let ghost p = line@.subrange(start as int, i as int);
        let ghost q = line@.subrange(start as int, i as int + 1);
        proof {
            assert(q.drop_last() =~= p);
            assert(q.last() == line@[i as int]);
        }
        if b < 48 || b > 57 {
            proof {
                assert(d[i - start] == line@[i as int]);
                assert(!all_digits(d));
            }
            return Err(MidiPedalError::InvalidSelection);
        }
        let dv = (b - 48) as usize;
        if value > (usize::MAX - dv) / 10 {
            proof {
                assert(value * 10 + dv > usize::MAX) by (nonlinear_arith)
                    requires
                        value > (usize::MAX - dv) / 10,
                        0 <= dv <= 9,
                        value >= 0,
                ;
                assert(digits_value(q) == 10 * digits_value(p) + (line@[i as int] - 48));
                assert(digits_value(q) > usize::MAX);
                if all_digits(d) {
                    assert(q =~= d.take(i + 1 - start));
                    lemma_digits_value_take_le(d, i + 1 - start);
                    assert(digits_value(d) > usize::MAX);
                }
            }
            return Err(MidiPedalError::InvalidSelection);
        }
        proof {
            assert(value * 10 + dv <= usize::MAX) by (nonlinear_arith)
                requires
                    value <= (usize::MAX - dv) / 10,
                    0 <= dv <= 9,
                    value >= 0,
            ;
            assert(all_digits(q)) by {
                assert(forall|j: int| 0 <= j < p.len() ==> #[trigger] q[j] == p[j]);
                assert(is_ascii_digit(q[q.len() - 1]));
            }
            assert(digits_value(q) == 10 * digits_value(p) + (line@[i as int] - 48));
        }
        value = value * 10 + dv;
        i = i + 1;
    }
    proof {
        assert(line@.subrange(start as int, i as int) =~= d);
    }
    if value < port_count {
        Ok(value)
    } else {
        Err(MidiPedalError::InvalidSelection)
    }
}

/// Resolves which of `port_count` MIDI input ports to listen on.
///
/// With no port the selection fails with `NoDeviceFound`; with exactly one
/// port that port is chosen with no console line needed; with several ports
/// the console line given in `line` is parsed as the port index, and a
/// missing or unparsable line or an out-of-range index fails with
/// `InvalidSelection`. A single invalid selection is fatal: no retry.
pub fn select_port(port_count: usize, line: Option<&[u8]>) -> (r: Result<usize, MidiPedalError>)
    ensures
        port_count == 0 ==> r == Err::<usize, MidiPedalError>(MidiPedalError::NoDeviceFound),
        port_count == 1 ==> r == Ok::<usize, MidiPedalError>(0usize),
        port_count > 1 ==> (match line {
            Some(l) => r == spec_parse_selection(l@, port_count as int),
            None => r == Err::<usize, MidiPedalError>(MidiPedalError::InvalidSelection),
        }),
{
    if port_count == 0 {
        Err(MidiPedalError::NoDeviceFound)
    } else if port_count == 1 {
        Ok(0)
    } else {
        match line {
            Some(l) => parse_port_index(l, port_count),
            None => Err(MidiPedalError::InvalidSelection),
        }
    }
}

/// A line whose trimmed text is not one or more decimal digits (after an
/// optional plus sign) never selects a port, whatever the port count.
pub proof fn lemma_non_numeric_rejected(line: Seq<u8>, port_count: int)
    requires
        strip_plus(spec_trim(line)).len() == 0 || !all_digits(strip_plus(spec_trim(line))),
    ensures
        spec_parse_selection(line, port_count) == Err::<usize, MidiPedalError>(
            MidiPedalError::InvalidSelection,
        ),
{
}

/// A parsed index at or past the port count never selects a port.
pub proof fn lemma_out_of_range_rejected(line: Seq<u8>, port_count: int, i: usize)
    requires
        spec_parse_index(line) == Some(i),
        i >= port_count,
    ensures
        spec_parse_selection(line, port_count) == Err::<usize, MidiPedalError>(
            MidiPedalError::InvalidSelection,
        ),
{
}

} // verus!
