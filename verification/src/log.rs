use vstd::prelude::*;

verus! {

/// The decimal digits of a non-negative number, most significant first.
pub open spec fn dec_rep(n: int) -> Seq<u8>
    decreases n,
{
    if n < 10 {
        seq![(48 + n) as u8]
    } else {
        dec_rep(n / 10).push((48 + n % 10) as u8)
    }
}

/// The bytes of a message listed between brackets, separated by a comma and
/// a space: `[176, 66, 127]`.
pub open spec fn bytes_listing(m: Seq<u8>) -> Seq<u8> {
    seq![91u8] + bytes_listing_inner(m) + seq![93u8]
}

pub open spec fn bytes_listing_inner(m: Seq<u8>) -> Seq<u8>
    decreases m.len(),
{
    if m.len() == 0 {
        Seq::empty()
    } else if m.len() == 1 {
        dec_rep(m[0] as int)
    } else {
        bytes_listing_inner(m.drop_last()) + seq![44u8, 32u8] + dec_rep(m.last() as int)
    }
}

/// The bytes of the text ` (len = `.
pub open spec fn len_label() -> Seq<u8> {
    seq![32u8, 40u8, 108u8, 101u8, 110u8, 32u8, 61u8, 32u8]
}

/// The line logged for every received message, whatever its content: the
/// timestamp, a colon and space, the raw bytes, and the byte count, as in
/// `1234: [176, 66, 127] (len = 3)`.
pub open spec fn spec_message_log_line(stamp: u64, m: Seq<u8>) -> Seq<u8> {
    dec_rep(stamp as int) + seq![58u8, 32u8] + bytes_listing(m) + len_label() + dec_rep(
        m.len() as int,
    ) + seq![41u8]
}

/// Appends the decimal digits of `n` to `out`.
fn push_dec(out: &mut Vec<u8>, n: u64)
    ensures
        final(out)@ == old(out)@ + dec_rep(n as int),
    decreases n,
{
    if n < 10 {
        out.push((48 + n) as u8);
        proof {
            assert(out@ =~= old(out)@ + dec_rep(n as int));
        }
    } else {
        push_dec(out, n / 10);
        out.push((48 + (n % 10)) as u8);
        proof {
            assert(out@ =~= old(out)@ + dec_rep(n as int));
        }
    }
}

/// Appends the bracketed byte listing of `m` to `out`.
fn push_bytes_listing(out: &mut Vec<u8>, m: &[u8])
    ensures
        final(out)@ == old(out)@ + bytes_listing(m@),
{
    out.push(91);
    if m.len() > 0 {
        push_dec(out, m[0] as u64);
        proof {
            assert(m@.take(1).drop_last() =~= Seq::<u8>::empty());
            assert(m@.take(1)[0] == m@[0]);
            assert(out@ =~= old(out)@ + seq![91u8] + bytes_listing_inner(m@.take(1)));
        }
        let mut i: usize = 1;
        while i < m.len()
            invariant
                1 <= i <= m@.len(),
                out@ == old(out)@ + seq![91u8] + bytes_listing_inner(m@.take(i as int)),
            decreases m@.len() - i,
        {
            out.push(44);
            out.push(32);
            push_dec(out, m[i] as u64);
            proof {
                let t = m@.take(i + 1);
                assert(t.drop_last() =~= m@.take(i as int));
                assert(t.last() == m@[i as int]);
                assert(out@ =~= old(out)@ + seq![91u8] + bytes_listing_inner(t));
            }
            i = i + 1;
        }
        proof {
            assert(m@.take(m@.len() as int) =~= m@);
        }
    }
    out.push(93);
    proof {
        assert(out@ =~= old(out)@ + bytes_listing(m@));
    }
}

/// Builds the log line for one received message: timestamp, raw bytes and
/// byte count. The surrounding process prints it; the content is fixed here.
pub fn message_log_line(stamp: u64, message: &[u8]) -> (line: Vec<u8>)
    ensures
        line@ == spec_message_log_line(stamp, message@),
{
    let mut line: Vec<u8> = Vec::new();
    push_dec(&mut line, stamp);
    line.push(58);
    line.push(32);
    push_bytes_listing(&mut line, message);
    line.push(32);
    line.push(40);
    line.push(108);
    line.push(101);
    line.push(110);
    line.push(32);
    line.push(61);
    line.push(32);
    push_dec(&mut line, message.len() as u64);
    line.push(41);
    proof {
        assert(line@ =~= spec_message_log_line(stamp, message@));
    }
    line
}

} // verus!
