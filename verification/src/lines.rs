//! Line-oriented capture of subprocess output: splitting raw bytes on
//! line boundaries, tolerating either line-ending convention.

use vstd::prelude::*;
use vstd::utf8::{valid_utf8, decode_utf8};

use crate::error::Error;
use crate::text::bytes_to_string;

verus! {

/// A line with one trailing carriage return removed, so that both
/// `\n` and `\r\n` conventions yield the same lines.
pub open spec fn strip_cr(line: Seq<u8>) -> Seq<u8> {
    if line.len() > 0 && line[line.len() - 1] == 13 {
        line.drop_last()
    } else {
        line
    }
}

/// The index of the first line feed in `bytes`, or the length when
/// there is none.
pub open spec fn first_nl(bytes: Seq<u8>) -> int
    decreases bytes.len(),
{
    if bytes.len() == 0 {
        0
    } else if bytes[0] == 10 {
        0
    } else {
        1 + first_nl(bytes.drop_first())
    }
}

/// What [`first_nl`] returns: the position of the first line feed.
pub proof fn lemma_first_nl(bytes: Seq<u8>)
    ensures
        0 <= first_nl(bytes) <= bytes.len(),
        first_nl(bytes) < bytes.len() ==> bytes[first_nl(bytes)] == 10,
        forall|j: int| 0 <= j < first_nl(bytes) ==> bytes[j] != 10,
    decreases bytes.len(),
{
    if bytes.len() == 0 {
    } else if bytes[0] == 10 {
    } else {
        lemma_first_nl(bytes.drop_first());
        assert forall|j: int| 0 <= j < first_nl(bytes) implies bytes[j] != 10 by {
            if j > 0 {
                assert(bytes.drop_first()[j - 1] != 10);
            }
        }
    }
}

/// The lines of a byte sequence: segments between line feeds, each with
/// a trailing carriage return removed. A trailing line feed opens no
/// further empty line.
pub open spec fn spec_lines(bytes: Seq<u8>) -> Seq<Seq<u8>>
    decreases bytes.len(),
{
    if bytes.len() == 0 {
        Seq::<Seq<u8>>::empty()
    } else {
        let i = first_nl(bytes);
        if 0 <= i < bytes.len() {
            seq![strip_cr(bytes.take(i))] + spec_lines(bytes.skip(i + 1))
        } else {
            seq![strip_cr(bytes)]
        }
    }
}

/// Splitting steps over one complete line at a time: a line-feed-free
/// prefix, its terminator, then the rest.
pub proof fn lemma_lines_step(line: Seq<u8>, rest: Seq<u8>)
    requires
        forall|j: int| 0 <= j < line.len() ==> line[j] != 10,
    ensures
        spec_lines(line + seq![10u8] + rest) == seq![strip_cr(line)] + spec_lines(rest),
{
    let s = line + seq![10u8] + rest;
    lemma_first_nl(s);
    assert(s[line.len() as int] == 10);
    assert(first_nl(s) <= line.len()) by {
        if first_nl(s) > line.len() {
            assert(s[line.len() as int] != 10);
        }
    }
    assert(first_nl(s) == line.len()) by {
        if first_nl(s) < line.len() {
            assert(s[first_nl(s)] == line[first_nl(s)]);
        }
    }
    assert(s.take(line.len() as int) =~= line);
    assert(s.skip(line.len() as int + 1) =~= rest);
}

/// A sequence without a line feed is one single line.
pub proof fn lemma_lines_single(line: Seq<u8>)
    requires
        line.len() > 0,
        forall|j: int| 0 <= j < line.len() ==> line[j] != 10,
    ensures
        spec_lines(line) == seq![strip_cr(line)],
        spec_lines(line + seq![10u8]) == seq![strip_cr(line)],
{
    lemma_first_nl(line);
    assert(first_nl(line) == line.len()) by {
        if first_nl(line) < line.len() {
            assert(line[first_nl(line)] == 10);
        }
    }
    lemma_lines_step(line, Seq::<u8>::empty());
    assert(line + seq![10u8] + Seq::<u8>::empty() =~= line + seq![10u8]);
}

/// Law: an input of three lines yields exactly those three lines, in the
/// original order, none dropped or merged, with or without a trailing
/// terminator.
pub proof fn lemma_lines_of_three(l1: Seq<u8>, l2: Seq<u8>, l3: Seq<u8>)
    requires
        forall|j: int| 0 <= j < l1.len() ==> l1[j] != 10,
        forall|j: int| 0 <= j < l2.len() ==> l2[j] != 10,
        forall|j: int| 0 <= j < l3.len() ==> l3[j] != 10,
        l3.len() > 0,
    ensures
        spec_lines(l1 + seq![10u8] + l2 + seq![10u8] + l3) == seq![
            strip_cr(l1),
            strip_cr(l2),
            strip_cr(l3),
        ],
        spec_lines(l1 + seq![10u8] + l2 + seq![10u8] + l3 + seq![10u8]) == seq![
            strip_cr(l1),
            strip_cr(l2),
            strip_cr(l3),
        ],
{
    let tail1 = l2 + seq![10u8] + l3;
    let tail1t = l2 + seq![10u8] + l3 + seq![10u8];
    lemma_lines_single(l3);
    lemma_lines_step(l2, l3);
    lemma_lines_step(l2, l3 + seq![10u8]);
    assert(l2 + seq![10u8] + (l3 + seq![10u8]) =~= tail1t);
    lemma_lines_step(l1, tail1);
    lemma_lines_step(l1, tail1t);
    assert(l1 + seq![10u8] + tail1 =~= l1 + seq![10u8] + l2 + seq![10u8] + l3);
    assert(l1 + seq![10u8] + tail1t =~= l1 + seq![10u8] + l2 + seq![10u8] + l3 + seq![10u8]);
    assert(seq![strip_cr(l1)] + (seq![strip_cr(l2)] + seq![strip_cr(l3)]) =~= seq![
        strip_cr(l1),
        strip_cr(l2),
        strip_cr(l3),
    ]);
}

/// A copy of `bytes[from..to]`.
fn copy_range(bytes: &Vec<u8>, from: usize, to: usize) -> (r: Vec<u8>)
    requires
        from <= to <= bytes@.len(),
    ensures
        r@ == bytes@.subrange(from as int, to as int),
{
    let mut r: Vec<u8> = Vec::new();
    let mut i: usize = from;
    while i < to
        invariant
            from <= i <= to <= bytes@.len(),
            r@ == bytes@.subrange(from as int, i as int),
        decreases to - i,
    {
        r.push(bytes[i]);
        i = i + 1;
        assert(r@ =~= bytes@.subrange(from as int, i as int));
    }
    r
}

/// Splits raw output on line boundaries, returning every line in the
/// original order, with line feeds removed and one trailing carriage
/// return stripped from each line.
pub fn split_lines(bytes: &Vec<u8>) -> (r: Vec<Vec<u8>>)
    ensures
        r.deep_view() == spec_lines(bytes@),
{
    let ghost all = spec_lines(bytes@);
    let mut r: Vec<Vec<u8>> = Vec::new();
    let mut start: usize = 0;
    let mut i: usize = 0;
    let n = bytes.len();
    proof {
        assert(bytes@.skip(0) =~= bytes@);
        assert(r.deep_view() =~= Seq::<Seq<u8>>::empty());
        assert(all =~~= r.deep_view() + spec_lines(bytes@.skip(0)));
    }
    while i < n
        invariant
            0 <= start <= i <= n == bytes@.len(),
            forall|j: int| start <= j < i ==> bytes@[j] != 10,
            all == r.deep_view() + spec_lines(bytes@.skip(start as int)),
        decreases n - i,
    {
        if bytes[i] == 10 {
            proof {
                let seg = bytes@.subrange(start as int, i as int);
                let rest = bytes@.skip(i as int + 1);
                lemma_lines_step(seg, rest);
                assert(seg + seq![10u8] + rest =~= bytes@.skip(start as int));
            }
            let mut line = copy_range(bytes, start, i);
            if line.len() > 0 && line[line.len() - 1] == 13 {
                line.pop();
                proof {
                    assert(line@ =~= strip_cr(bytes@.subrange(start as int, i as int)));
                }
            }
            let ghost pre = r.deep_view();
            r.push(line);
            start = i + 1;
            proof {
                assert(r.deep_view() =~~= pre.push(line@));
                assert(all =~~= r.deep_view() + spec_lines(bytes@.skip(start as int)));
            }
        }
        i = i + 1;
    }
    if start < n {
        proof {
            let seg = bytes@.subrange(start as int, n as int);
            assert(seg =~= bytes@.skip(start as int));
            lemma_first_nl(seg);
            assert(first_nl(seg) == seg.len()) by {
                if first_nl(seg) < seg.len() {
                    assert(bytes@[start + first_nl(seg)] == 10);
                }
            }
        }
        let mut line = copy_range(bytes, start, n);
        if line.len() > 0 && line[line.len() - 1] == 13 {
            line.pop();
            proof {
                assert(line@ =~= strip_cr(bytes@.skip(start as int)));
            }
        }
        let ghost pre = r.deep_view();
        r.push(line);
        proof {
            assert(r.deep_view() =~~= pre.push(line@));
            assert(all =~~= r.deep_view());
        }
    } else {
        proof {
            assert(bytes@.skip(start as int) =~= Seq::<u8>::empty());
            assert(all =~~= r.deep_view());
        }
    }
    r
}

/// The text of every line of some raw output, in order, for the caller
/// to act on one by one (here: to log each line).
///
/// Fails with [`Error::Io`] when any line is not valid UTF-8, as reading
/// the stream line by line would.
pub fn for_each_line(content: &Vec<u8>) -> (r: Result<Vec<String>, Error>)
    ensures
        r is Ok <==> (forall|k: int|
            0 <= k < spec_lines(content@).len() ==> valid_utf8(#[trigger] spec_lines(content@)[k])),
        r is Ok ==> r->Ok_0.deep_view().len() == spec_lines(content@).len(),
        r is Ok ==> forall|k: int|
            0 <= k < spec_lines(content@).len() ==> r->Ok_0.deep_view()[k] == decode_utf8(
                #[trigger] spec_lines(content@)[k],
            ),
        r is Err ==> r->Err_0 == Error::Io,
{
    let lines = split_lines(content);
    let mut out: Vec<String> = Vec::new();
    let mut i: usize = 0;
    let n = lines.len();
    while i < n
        invariant
            0 <= i <= n == lines@.len(),
            lines.deep_view() == spec_lines(content@),
            out.deep_view().len() == i,
            forall|k: int|
                0 <= k < i ==> valid_utf8(#[trigger] spec_lines(content@)[k]),
            forall|k: int|
                0 <= k < i ==> out.deep_view()[k] == decode_utf8(
                    #[trigger] spec_lines(content@)[k],
                ),
        decreases n - i,
    {
        assert(lines@[i as int]@ == spec_lines(content@)[i as int]);
        match bytes_to_string(&lines[i]) {
            Some(s) => {
                out.push(s);
            },
            None => {
                return Err(Error::Io);
            },
        }
        i = i + 1;
    }
    Ok(out)
}

} // verus!
