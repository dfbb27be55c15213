//! Byte-sequence helpers shared by the index parser and the quiz engine:
//! whitespace trimming, first-occurrence search, and splitting a document
//! into lines. Trimming strips whitespace characters as UTF-8 encodes
//! them: the ASCII ones and the two- and three-byte Unicode spaces.
use vstd::prelude::*;

verus! {

/// ASCII whitespace: space, TAB, LF, VT, FF, CR.
pub open spec fn is_ws(b: u8) -> bool {
    b == 32 || (9 <= b && b <= 13)
}

/// The three-byte UTF-8 whitespace characters: the ogham space mark, the
/// en-quad to hair-space run, the line and paragraph separators, the
/// narrow no-break space, the medium mathematical space, and the
/// ideographic space.
pub open spec fn is_ws3(a: u8, b: u8, c: u8) -> bool {
    ||| (a == 0xE1 && b == 0x9A && c == 0x80)
    ||| (a == 0xE2 && b == 0x80 && (0x80 <= c <= 0x8A || c == 0xA8 || c == 0xA9 || c == 0xAF))
    ||| (a == 0xE2 && b == 0x81 && c == 0x9F)
    ||| (a == 0xE3 && b == 0x80 && c == 0x80)
}

/// The byte length of the whitespace character at the front of `s`: an
/// ASCII whitespace byte, the two-byte next-line or no-break space, or a
/// three-byte Unicode space; 0 when `s` does not begin with whitespace.
pub open spec fn ws_front_len(s: Seq<u8>) -> int {
    if s.len() >= 1 && is_ws(s[0]) {
        1
    } else if s.len() >= 2 && s[0] == 0xC2 && (s[1] == 0x85 || s[1] == 0xA0) {
        2
    } else if s.len() >= 3 && is_ws3(s[0], s[1], s[2]) {
        3
    } else {
        0
    }
}

/// The byte length of the whitespace character at the back of `s`; 0 when
/// `s` does not end with whitespace.
pub open spec fn ws_back_len(s: Seq<u8>) -> int {
    if s.len() >= 1 && is_ws(s[s.len() - 1]) {
        1
    } else if s.len() >= 2 && s[s.len() - 2] == 0xC2 && (s[s.len() - 1] == 0x85 || s[s.len() - 1]
        == 0xA0) {
        2
    } else if s.len() >= 3 && is_ws3(s[s.len() - 3], s[s.len() - 2], s[s.len() - 1]) {
        3
    } else {
        0
    }
}

/// `s` with leading whitespace characters removed.
pub open spec fn trim_front(s: Seq<u8>) -> Seq<u8>
    decreases s.len(),
{
    let k = ws_front_len(s);
    if k > 0 {
        trim_front(s.skip(k))
    } else {
        s
    }
}

/// `s` with trailing whitespace characters removed.
pub open spec fn trim_back(s: Seq<u8>) -> Seq<u8>
    decreases s.len(),
{
    let k = ws_back_len(s);
    if k > 0 {
        trim_back(s.take(s.len() - k))
    } else {
        s
    }
}

/// `s` with whitespace removed from both ends.
pub open spec fn trimmed(s: Seq<u8>) -> Seq<u8> {
    trim_back(trim_front(s))
}

/// The position of the first occurrence of `b` in `s`, if any.
pub open spec fn find_first(s: Seq<u8>, b: u8) -> Option<int>
    decreases s.len(),
{
    if s.len() == 0 {
        None
    } else if s[0] == b {
        Some(0)
    } else {
        match find_first(s.drop_first(), b) {
            Some(i) => Some(i + 1),
            None => None,
        }
    }
}

/// `find_first` returns the position of the first occurrence: in bounds,
/// holding `b`, with no earlier occurrence; or `None` when `b` is absent.
pub proof fn lemma_find_first(s: Seq<u8>, b: u8)
    ensures
        match find_first(s, b) {
            Some(i) => 0 <= i < s.len() && s[i] == b && (forall|j: int| 0 <= j < i ==> s[j] != b),
            None => forall|j: int| 0 <= j < s.len() ==> s[j] != b,
        },
    decreases s.len(),
{
    if s.len() == 0 {
    } else if s[0] == b {
    } else {
        lemma_find_first(s.drop_first(), b);
        match find_first(s.drop_first(), b) {
            Some(i) => {
                assert(s[i + 1] == s.drop_first()[i]);
                assert forall|j: int| 0 <= j < i + 1 implies s[j] != b by {
                    if j > 0 {
                        assert(s[j] == s.drop_first()[j - 1]);
                    }
                }
            },
            None => {
                assert forall|j: int| 0 <= j < s.len() implies s[j] != b by {
                    if j > 0 {
                        assert(s[j] == s.drop_first()[j - 1]);
                    }
                }
            },
        }
    }
}

/// Where `b` occurs at `i` and nowhere earlier, `find_first` finds `i`.
pub proof fn lemma_find_first_is(s: Seq<u8>, b: u8, i: int)
    requires
        0 <= i < s.len(),
        s[i] == b,
        forall|j: int| 0 <= j < i ==> s[j] != b,
    ensures
        find_first(s, b) == Some(i),
{
    lemma_find_first(s, b);
    match find_first(s, b) {
        Some(k) => {
            if k < i {
                assert(s[k] != b);
            }
            if i < k {
                assert(s[i] != b);
            }
        },
        None => {
            assert(s[i] != b);
        },
    }
}

/// Whether a byte is ASCII whitespace.
pub fn is_ws_byte(b: u8) -> (r: bool)
    ensures
        r == is_ws(b),
{
    b == 32 || (9 <= b && b <= 13)
}

/// Whether three bytes are a three-byte UTF-8 whitespace character.
fn is_ws3_bytes(a: u8, b: u8, c: u8) -> (r: bool)
    ensures
        r == is_ws3(a, b, c),
{
    (a == 0xE1 && b == 0x9A && c == 0x80) || (a == 0xE2 && b == 0x80 && ((0x80 <= c && c <= 0x8A)
        || c == 0xA8 || c == 0xA9 || c == 0xAF)) || (a == 0xE2 && b == 0x81 && c == 0x9F) || (a
        == 0xE3 && b == 0x80 && c == 0x80)
}

/// The byte length of the whitespace character at the front of
/// `s[lo..hi]`.
fn ws_front_k(s: &[u8], lo: usize, hi: usize) -> (k: usize)
    requires
        lo <= hi <= s@.len(),
    ensures
        k as int == ws_front_len(s@.subrange(lo as int, hi as int)),
        lo + k <= hi,
{
    let ghost w = s@.subrange(lo as int, hi as int);
    if lo < hi && is_ws_byte(s[lo]) {
        proof {
            assert(w[0] == s@[lo as int]);
        }
        1
    } else if hi - lo >= 2 && s[lo] == 0xC2 && (s[lo + 1] == 0x85 || s[lo + 1] == 0xA0) {
        proof {
            assert(w[0] == s@[lo as int] && w[1] == s@[lo as int + 1]);
        }
        2
    } else if hi - lo >= 3 && is_ws3_bytes(s[lo], s[lo + 1], s[lo + 2]) {
        proof {
            assert(w[0] == s@[lo as int] && w[1] == s@[lo as int + 1] && w[2] == s@[lo as int
                + 2]);
        }
        3
    } else {
        proof {
            if w.len() >= 1 {
                assert(w[0] == s@[lo as int]);
            }
            if w.len() >= 2 {
                assert(w[1] == s@[lo as int + 1]);
            }
            if w.len() >= 3 {
                assert(w[2] == s@[lo as int + 2]);
            }
        }
        0
    }
}

/// The byte length of the whitespace character at the back of `s[lo..hi]`.
fn ws_back_k(s: &[u8], lo: usize, hi: usize) -> (k: usize)
    requires
        lo <= hi <= s@.len(),
    ensures
        k as int == ws_back_len(s@.subrange(lo as int, hi as int)),
        lo + k <= hi,
{
    let ghost w = s@.subrange(lo as int, hi as int);
    let n: usize = hi - lo;
    if n >= 1 && is_ws_byte(s[hi - 1]) {
        proof {
            assert(w[w.len() - 1] == s@[hi as int - 1]);
        }
        1
    } else if n >= 2 && s[hi - 2] == 0xC2 && (s[hi - 1] == 0x85 || s[hi - 1] == 0xA0) {
        proof {
            assert(w[w.len() - 2] == s@[hi as int - 2] && w[w.len() - 1] == s@[hi as int - 1]);
        }
        2
    } else if n >= 3 && is_ws3_bytes(s[hi - 3], s[hi - 2], s[hi - 1]) {
        proof {
            assert(w[w.len() - 3] == s@[hi as int - 3] && w[w.len() - 2] == s@[hi as int - 2]
                && w[w.len() - 1] == s@[hi as int - 1]);
        }
        3
    } else {
        proof {
            if w.len() >= 1 {
                assert(w[w.len() - 1] == s@[hi as int - 1]);
            }
            if w.len() >= 2 {
                assert(w[w.len() - 2] == s@[hi as int - 2]);
            }
            if w.len() >= 3 {
                assert(w[w.len() - 3] == s@[hi as int - 3]);
            }
        }
        0
    }
}

/// Trims whitespace characters — ASCII and the multi-byte Unicode spaces —
/// from both ends of a byte slice.
pub fn trim(s: &[u8]) -> (out: &[u8])
    ensures
        out@ == trimmed(s@),
{
    let len: usize = s.len();
    let mut lo: usize = 0;
    proof {
        assert(s@.subrange(0, len as int) =~= s@);
    }
    loop
        invariant
            0 <= lo <= len,
            len == s@.len(),
            trim_front(s@) == trim_front(s@.subrange(lo as int, len as int)),
        ensures
            0 <= lo <= len,
            len == s@.len(),
            trim_front(s@) == s@.subrange(lo as int, len as int),
        decreases len - lo,
    {
        let k: usize = ws_front_k(s, lo, len);
        if k == 0 {
            break ;
        }
        proof {
            assert(s@.subrange(lo as int, len as int).skip(k as int) =~= s@.subrange(
                lo as int + k as int,
                len as int,
            ));
        }
        lo = lo + k;
    }
    let mut hi: usize = len;
    loop
        invariant
            0 <= lo <= hi <= len,
            len == s@.len(),
            trim_front(s@) == s@.subrange(lo as int, len as int),
            trim_back(s@.subrange(lo as int, len as int)) == trim_back(
                s@.subrange(lo as int, hi as int),
            ),
        ensures
            0 <= lo <= hi <= len,
            trim_back(s@.subrange(lo as int, len as int)) == s@.subrange(lo as int, hi as int),
        decreases hi,
    {
        let k: usize = ws_back_k(s, lo, hi);
        if k == 0 {
            break ;
        }
        proof {
            let w = s@.subrange(lo as int, hi as int);
            assert(w.take(w.len() - k as int) =~= s@.subrange(lo as int, hi as int - k as int));
        }
        hi = hi - k;
    }
    vstd::slice::slice_subrange(s, lo, hi)
}

/// The first position of `b` in `s`, if any.
pub fn find_byte(s: &[u8], b: u8) -> (r: Option<usize>)
    ensures
        match r {
            Some(i) => find_first(s@, b) == Some(i as int),
            None => find_first(s@, b) is None,
        },
{
    let len: usize = s.len();
    let mut i: usize = 0;
    while i < len
        invariant
            0 <= i <= len,
            len == s@.len(),
            forall|j: int| 0 <= j < i ==> s@[j] != b,
        decreases len - i,
    {
        if s[i] == b {
            proof {
                lemma_find_first_is(s@, b, i as int);
            }
            return Some(i);
        }
        i = i + 1;
    }
    proof {
        lemma_find_first(s@, b);
        if find_first(s@, b) is Some {
            let k = find_first(s@, b)->Some_0;
            assert(s@[k] != b);
        }
    }
    None
}

/// A line boundary: the segment before a newline, with a carriage return
/// immediately before the newline stripped.
pub open spec fn strip_cr(s: Seq<u8>) -> Seq<u8> {
    if s.len() > 0 && s[s.len() - 1] == 13 {
        s.drop_last()
    } else {
        s
    }
}

/// The lines of a text: segments split at each newline, a carriage return
/// before a newline dropped, and no empty final line after a trailing newline.
pub open spec fn spec_lines(t: Seq<u8>) -> Seq<Seq<u8>>
    decreases t.len(),
{
    if t.len() == 0 {
        Seq::empty()
    } else {
        match find_first(t, 10) {
            Some(i) => if 0 <= i < t.len() {
                seq![strip_cr(t.take(i))] + spec_lines(t.skip(i + 1))
            } else {
                seq![t]
            },
            None => seq![t],
        }
    }
}

/// Splits a document into its lines.
pub fn split_lines(t: &[u8]) -> (r: Vec<Vec<u8>>)
    ensures
        r@.map_values(|l: Vec<u8>| l@) == spec_lines(t@),
{
    let mut out: Vec<Vec<u8>> = Vec::new();
    let mut rest: &[u8] = t;
    proof {
        assert(out@.map_values(|l: Vec<u8>| l@) + spec_lines(rest@) =~= spec_lines(t@));
    }
    loop
        invariant
            spec_lines(t@) == out@.map_values(|l: Vec<u8>| l@) + spec_lines(rest@),
        decreases rest@.len(),
    {
        if rest.len() == 0 {
            proof {
                assert(out@.map_values(|l: Vec<u8>| l@) + spec_lines(rest@) =~= out@.map_values(
                    |l: Vec<u8>| l@,
                ));
            }
            return out;
        }
        match find_byte(rest, 10) {
            Some(i) => {
                proof {
                    lemma_find_first(rest@, 10);
                }
                let mut seg: &[u8] = vstd::slice::slice_subrange(rest, 0, i);
                proof {
                    assert(seg@ =~= rest@.take(i as int));
                }
                if seg.len() > 0 && seg[seg.len() - 1] == 13 {
                    seg = vstd::slice::slice_subrange(seg, 0, seg.len() - 1);
                    proof {
                        assert(seg@ =~= strip_cr(rest@.take(i as int)));
                    }
                }
                proof {
                    assert(seg@ == strip_cr(rest@.take(i as int)));
                }
                let line: Vec<u8> = vstd::slice::slice_to_vec(seg);
                let ghost old_out = out@;
                out.push(line);
                let ghost old_rest = rest@;
                rest = vstd::slice::slice_subrange(rest, i + 1, rest.len());
                proof {
                    assert(rest@ =~= old_rest.skip(i + 1));
                    assert(out@.map_values(|l: Vec<u8>| l@) =~= old_out.map_values(|l: Vec<u8>| l@)
                        + seq![strip_cr(old_rest.take(i as int))]);
                    assert(out@.map_values(|l: Vec<u8>| l@) + spec_lines(rest@) =~= old_out.map_values(
                        |l: Vec<u8>| l@,
                    ) + spec_lines(old_rest));
                }
            },
            None => {
                let line: Vec<u8> = vstd::slice::slice_to_vec(rest);
                let ghost old_out = out@;
                out.push(line);
                proof {
                    assert(out@.map_values(|l: Vec<u8>| l@) =~= old_out.map_values(|l: Vec<u8>| l@)
                        + seq![rest@]);
                    assert(out@.map_values(|l: Vec<u8>| l@) =~= spec_lines(t@));
                }
                return out;
            },
        }
    }
}

} // verus!
