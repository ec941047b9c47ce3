//! The reply of an HTTP tracker, cut into its status line, headers and body.
use vstd::prelude::*;

use vstd::utf8::{decode_utf8, valid_utf8};

verus! {

/// Whether `s` has a carriage return followed by a line feed at `i`.
pub open spec fn crlf_at(s: Seq<u8>, i: int) -> bool {
    0 <= i && i + 1 < s.len() && s[i] == 13 && s[i + 1] == 10
}

/// Whether `s` holds a CRLF anywhere.
pub open spec fn has_crlf(s: Seq<u8>) -> bool {
    exists|i: int| #[trigger] crlf_at(s, i)
}

/// The lines joined again, a CRLF between each two.
pub open spec fn join_crlf(lines: Seq<Seq<u8>>) -> Seq<u8>
    decreases lines.len(),
{
    if lines.len() == 0 {
        seq![]
    } else if lines.len() == 1 {
        lines[0]
    } else {
        join_crlf(lines.drop_last()) + seq![13u8, 10u8] + lines.last()
    }
}

/// The contents of a list of byte slices.
pub open spec fn views(lines: Seq<&[u8]>) -> Seq<Seq<u8>> {
    lines.map_values(|l: &[u8]| l@)
}

/// Cuts `response` at each CRLF: the lines hold no CRLF, and joined with
/// CRLFs they give `response` back. A response without a CRLF is one line.
pub fn get_lines(response: &Vec<u8>) -> (r: Vec<&[u8]>)
    ensures
        r@.len() >= 1,
        join_crlf(views(r@)) == response@,
        forall|k: int| 0 <= k < r@.len() ==> !has_crlf(#[trigger] r@[k]@),
{
    let s = response.as_slice();
    let n = s.len();
    let mut start: usize = 0;
    let mut lines: Vec<&[u8]> = Vec::new();
    let mut index: usize = 1;
    while index < n
        invariant
            s@ == response@,
            n == s@.len(),
            1 <= index,
            start <= index,
            start <= n,
            index <= n || (n == 0 && index == 1),
            start == 0 ==> lines@.len() == 0,
            start > 0 ==> lines@.len() >= 1 && join_crlf(views(lines@)) + seq![13u8, 10u8]
                == s@.subrange(0, start as int),
            start > 0 ==> s@[start - 1] == 10,
            forall|k: int| 0 <= k < lines@.len() ==> !has_crlf(#[trigger] lines@[k]@),
            forall|i: int| start <= i && i + 1 < index ==> !#[trigger] crlf_at(s@, i),
        decreases n - index,
    {
        if s[index - 1] == 13 && s[index] == 10 {
            let line = &s[start..index - 1];
            proof {
                assert forall|i: int| !#[trigger] crlf_at(line@, i) by {
                    if crlf_at(line@, i) {
                        assert(crlf_at(s@, start + i));
                    }
                }
            }
            let ghost before = lines@;
            lines.push(line);
            proof {
                assert(views(lines@).drop_last() =~= views(before));
                if before.len() == 0 {
                    assert(s@.subrange(0, index + 1) =~= line@ + seq![13u8, 10u8]);
                    assert(join_crlf(views(lines@)) == line@);
                } else {
                    assert(s@.subrange(0, index + 1) =~= s@.subrange(0, start as int) + line@
                        + seq![13u8, 10u8]);
                }
            }
            start = index + 1;
        }
        index = index + 1;
    }
    let last = &s[start..n];
    proof {
        assert forall|i: int| !#[trigger] crlf_at(last@, i) by {
            if crlf_at(last@, i) {
                assert(crlf_at(s@, start + i));
            }
        }
    }
    let ghost before = lines@;
    lines.push(last);
    proof {
        assert(views(lines@).drop_last() =~= views(before));
        if before.len() == 0 {
            assert(last@ =~= s@);
        } else {
            assert(s@ =~= s@.subrange(0, start as int) + last@);
        }
    }
    lines
}

/// Relies on `String::from_utf8`: the text that `b` encodes, if `b` is valid
/// UTF-8.
#[verifier::external_body]
fn utf8_string(b: &[u8]) -> (r: Option<String>)
    ensures
        r is Some <==> valid_utf8(b@),
        r matches Some(s) ==> s@ == decode_utf8(b@),
{
    String::from_utf8(b.to_vec()).ok()
}

/// The headers of a reply: the lines after the status line up to the first
/// empty one (or all of them), decoded as UTF-8.
pub open spec fn header_lines(lines: Seq<Seq<u8>>) -> Seq<Seq<u8>> {
    header_lines_of_rest(lines.drop_first())
}

/// Reads the lines of a reply: the status (not read, 0), the headers, and
/// the body, which is the last line. `None` when a header is not UTF-8.
pub fn parse_lines(lines: Vec<&[u8]>) -> (r: Option<(u16, Vec<String>, Vec<u8>)>)
    requires
        lines@.len() >= 1,
    ensures
        r is None <==> exists|k: int|
            0 <= k < header_lines(views(lines@)).len() && !valid_utf8(
                #[trigger] header_lines(views(lines@))[k],
            ),
        r matches Some((status, headers, body)) ==> {
            &&& status == 0
            &&& body@ == lines@.last()@
            &&& headers@.len() == header_lines(views(lines@)).len()
            &&& forall|k: int|
                0 <= k < headers@.len() ==> (#[trigger] headers@[k])@ == decode_utf8(
                    header_lines(views(lines@))[k],
                )
        },
{
    let ghost all = views(lines@);
    let ghost rest = all.drop_first();
    let mut headers: Vec<String> = Vec::new();
    let mut k: usize = 1;
    while k < lines.len() && lines[k].len() != 0
        invariant
            1 <= k <= lines@.len(),
            all == views(lines@),
            rest == all.drop_first(),
            headers@.len() == k - 1,
            forall|j: int| 0 <= j < k - 1 ==> (#[trigger] rest[j]).len() != 0,
            forall|j: int| 0 <= j < k - 1 ==> valid_utf8(#[trigger] rest[j]),
            forall|j: int| 0 <= j < k - 1 ==> (#[trigger] headers@[j])@ == decode_utf8(rest[j]),
        decreases lines@.len() - k,
    {
        match utf8_string(lines[k]) {
            Some(h) => {
                headers.push(h);
            },
            None => {
                proof {
                    assert(rest[k - 1] == lines@[k as int]@);
                    lemma_header_prefix(rest, (k - 1) as int);
                    assert(header_lines(all)[k - 1] == rest[k - 1]);
                }
                return None;
            },
        }
        k = k + 1;
    }
    proof {
        if k < lines@.len() {
            assert(rest[k - 1].len() == 0);
            lemma_header_end(rest, (k - 1) as int);
        } else {
            assert(forall|j: int| 0 <= j < rest.len() ==> (#[trigger] rest[j]).len() != 0);
            assert(header_lines(all) == rest);
        }
        assert(header_lines(all).len() == k - 1);
    }
    let last = lines[lines.len() - 1];
    let body = vstd::slice::slice_to_vec(last);
    Some((0, headers, body))
}

proof fn lemma_header_end(rest: Seq<Seq<u8>>, k: int)
    requires
        0 <= k < rest.len(),
        rest[k].len() == 0,
        forall|j: int| 0 <= j < k ==> (#[trigger] rest[j]).len() != 0,
    ensures
        header_lines_of_rest(rest) == rest.subrange(0, k),
{
    let c = choose|c: int|
        0 <= c < rest.len() && (#[trigger] rest[c]).len() == 0 && forall|j: int|
            0 <= j < c ==> (#[trigger] rest[j]).len() != 0;
    if c < k {
        assert(rest[c].len() != 0);
    } else if c > k {
        assert(rest[k].len() != 0);
    }
}

/// The lines before the first empty one, or all of them.
pub open spec fn header_lines_of_rest(rest: Seq<Seq<u8>>) -> Seq<Seq<u8>> {
    let ends = exists|k: int| 0 <= k < rest.len() && (#[trigger] rest[k]).len() == 0;
    if ends {
        let k = choose|k: int|
            0 <= k < rest.len() && (#[trigger] rest[k]).len() == 0 && forall|j: int|
                0 <= j < k ==> (#[trigger] rest[j]).len() != 0;
        rest.subrange(0, k)
    } else {
        rest
    }
}

proof fn lemma_header_prefix(rest: Seq<Seq<u8>>, k: int)
    requires
        0 <= k < rest.len(),
        forall|j: int| 0 <= j <= k ==> (#[trigger] rest[j]).len() != 0,
    ensures
        k < header_lines_of_rest(rest).len(),
        header_lines_of_rest(rest)[k] == rest[k],
{
    if exists|c: int| 0 <= c < rest.len() && (#[trigger] rest[c]).len() == 0 {
        let c = choose|c: int|
            0 <= c < rest.len() && (#[trigger] rest[c]).len() == 0 && forall|j: int|
                0 <= j < c ==> (#[trigger] rest[j]).len() != 0;
        lemma_first_empty_exists(rest);
        if c <= k {
            assert(rest[c].len() != 0);
        }
    }
}

proof fn lemma_first_empty_exists(rest: Seq<Seq<u8>>)
    requires
        exists|c: int| 0 <= c < rest.len() && (#[trigger] rest[c]).len() == 0,
    ensures
        exists|c: int|
            0 <= c < rest.len() && (#[trigger] rest[c]).len() == 0 && forall|j: int|
                0 <= j < c ==> (#[trigger] rest[j]).len() != 0,
{
    let c0 = choose|c: int| 0 <= c < rest.len() && (#[trigger] rest[c]).len() == 0;
    lemma_first_below(rest, c0);
}

proof fn lemma_first_below(rest: Seq<Seq<u8>>, c: int)
    requires
        0 <= c < rest.len(),
        rest[c].len() == 0,
    ensures
        exists|d: int|
            0 <= d < rest.len() && (#[trigger] rest[d]).len() == 0 && forall|j: int|
                0 <= j < d ==> (#[trigger] rest[j]).len() != 0,
    decreases c,
{
    if exists|j: int| 0 <= j < c && (#[trigger] rest[j]).len() == 0 {
        let j = choose|j: int| 0 <= j < c && (#[trigger] rest[j]).len() == 0;
        lemma_first_below(rest, j);
    } else {
        assert(forall|j: int| 0 <= j < c ==> (#[trigger] rest[j]).len() != 0);
    }
}

} // verus!
