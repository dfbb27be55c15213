//! The blank matcher: finds the first `?[answer]` span on a line of
//! document text. An answer may hold any bytes but unescaped brackets;
//! the four-byte escape `\[\]` is allowed inside it literally.
use vstd::prelude::*;

verus! {

/// Whether the four-byte escape `\[\]` sits at position `p` of `s`.
pub open spec fn is_esc_at(s: Seq<u8>, p: int) -> bool {
    &&& p + 4 <= s.len()
    &&& s[p] == 92
    &&& s[p + 1] == 91
    &&& s[p + 2] == 92
    &&& s[p + 3] == 93
}

/// Where the answer text that begins at `p` closes: the position of its
/// terminating `]`, scanning escapes whole and refusing a bare `[`.
pub open spec fn body_end(s: Seq<u8>, p: int) -> Option<int>
    decreases s.len() - p,
    when 0 <= p <= s.len()
{
    if p >= s.len() {
        None
    } else if s[p] == 93 {
        Some(p)
    } else if is_esc_at(s, p) {
        body_end(s, p + 4)
    } else if s[p] != 91 {
        body_end(s, p + 1)
    } else {
        None
    }
}

/// The first blank at or after `i`: the position of its `?[` and of its
/// closing `]`.
pub open spec fn find_blank_from(s: Seq<u8>, i: int) -> Option<(int, int)>
    decreases s.len() - i,
    when 0 <= i <= s.len()
{
    if i + 2 > s.len() {
        None
    } else if s[i] == 63 && s[i + 1] == 91 && body_end(s, i + 2) is Some {
        Some((i, body_end(s, i + 2)->Some_0))
    } else {
        find_blank_from(s, i + 1)
    }
}

/// The first blank on the line.
pub open spec fn spec_find_blank(s: Seq<u8>) -> Option<(int, int)> {
    find_blank_from(s, 0)
}

/// One blank of a line: the text before it, the hidden answer, and the
/// text after it.
pub struct Blank {
    pub prefix: Vec<u8>,
    pub answer: Vec<u8>,
    pub suffix: Vec<u8>,
}

/// Finds the first blank on a line, returning the surrounding text and the
/// answer; `None` when the line holds no well-formed blank.
pub fn find_blank(line: &[u8]) -> (r: Option<Blank>)
    ensures
        r is Some <==> spec_find_blank(line@) is Some,
        r matches Some(b) ==> spec_find_blank(line@) matches Some(pair) && b.prefix@ == line@.take(
            pair.0,
        ) && b.answer@ == line@.subrange(pair.0 + 2, pair.1) && b.suffix@ == line@.skip(pair.1 + 1),
{
    let len: usize = line.len();
    let mut i: usize = 0;
    while i < len
        invariant
            0 <= i <= len,
            len == line@.len(),
            find_blank_from(line@, 0) == find_blank_from(line@, i as int),
        decreases len - i,
    {
        if i + 1 < len && line[i] == 63 && line[i + 1] == 91 {
            // scan for the close of the answer that starts at i + 2
            let mut p: usize = i + 2;
            let mut close: Option<usize> = None;
            let mut failed: bool = false;
            loop
                invariant_except_break
                    !failed,
                    close is None,
                    body_end(line@, i as int + 2) == body_end(line@, p as int),
                invariant
                    i + 2 <= p <= len,
                    len == line@.len(),
                ensures
                    close is None ==> body_end(line@, i as int + 2) is None,
                    close matches Some(e) ==> body_end(line@, i as int + 2) == Some(e as int)
                        && i + 2 <= e < len,
                decreases len - p,
            {
                if p >= len {
                    failed = true;
                    break ;
                }
                let b: u8 = line[p];
                if b == 93 {
                    close = Some(p);
                    break ;
                } else if len - p >= 4 && b == 92 && line[p + 1] == 91 && line[p + 2] == 92
                    && line[p + 3] == 93 {
                    p = p + 4;
                } else if b != 91 {
                    proof {
                        assert(!is_esc_at(line@, p as int));
                    }
                    p = p + 1;
                } else {
                    failed = true;
                    break ;
                }
            }
            match close {
                Some(e) => {
                    proof {
                        assert(find_blank_from(line@, i as int) == Some((i as int, e as int)));
                    }
                    let prefix: Vec<u8> = vstd::slice::slice_to_vec(
                        vstd::slice::slice_subrange(line, 0, i),
                    );
                    let answer: Vec<u8> = vstd::slice::slice_to_vec(
                        vstd::slice::slice_subrange(line, i + 2, e),
                    );
                    let suffix: Vec<u8> = vstd::slice::slice_to_vec(
                        vstd::slice::slice_subrange(line, e + 1, len),
                    );
                    proof {
                        assert(line@.take(i as int) =~= line@.subrange(0, i as int));
                        assert(line@.skip(e as int + 1) =~= line@.subrange(
                            e as int + 1,
                            len as int,
                        ));
                    }
                    return Some(Blank { prefix, answer, suffix });
                },
                None => {
                    proof {
                        assert(body_end(line@, i as int + 2) is None);
                        assert(find_blank_from(line@, i as int) == find_blank_from(
                            line@,
                            i as int + 1,
                        ));
                    }
                },
            }
        }
        i = i + 1;
    }
    proof {
        assert(find_blank_from(line@, i as int) is None);
    }
    None
}

/// A byte run with no bracket bytes at all.
pub open spec fn bracket_free(s: Seq<u8>) -> bool {
    forall|i: int| 0 <= i < s.len() ==> s[i] != 91 && s[i] != 93
}

/// Whether `a` is a well-formed answer text: plain non-bracket bytes and
/// whole `\[\]` escapes.
pub open spec fn answer_ok(a: Seq<u8>) -> bool
    decreases a.len(),
{
    if a.len() == 0 {
        true
    } else if is_esc_at(a, 0) {
        answer_ok(a.skip(4))
    } else if a[0] != 91 && a[0] != 93 {
        answer_ok(a.skip(1))
    } else {
        false
    }
}

/// Scanning a well-formed answer reaches exactly its closing bracket,
/// whatever follows the close.
pub proof fn lemma_body_end_concat(u: Seq<u8>, a: Seq<u8>, t: Seq<u8>)
    requires
        answer_ok(a),
    ensures
        body_end(u + a + seq![93u8] + t, u.len() as int) == Some(u.len() as int + a.len() as int),
    decreases a.len(),
{
    let s = u + a + seq![93u8] + t;
    let p = u.len() as int;
    if a.len() == 0 {
        assert(s[p] == 93);
    } else if is_esc_at(a, 0) {
        assert(s[p] == a[0] && s[p + 1] == a[1] && s[p + 2] == a[2] && s[p + 3] == a[3]);
        assert(is_esc_at(s, p));
        assert(s[p] != 93);
        lemma_body_end_concat(u + a.take(4), a.skip(4), t);
        assert((u + a.take(4)) + a.skip(4) + seq![93u8] + t =~= s);
        assert(body_end(s, p + 4) == Some(u.len() as int + 4 + (a.len() as int - 4)));
    } else {
        assert(s[p] == a[0]);
        assert(s[p] != 91 && s[p] != 93);
        assert(!is_esc_at(s, p)) by {
            if is_esc_at(s, p) {
                assert(s[p + 1] == 91);
                if a.len() == 1 {
                    assert(s[p + 1] == 93);
                } else {
                    assert(a[1] == 91);
                    assert(a.skip(1)[0] == 91);
                    assert(!answer_ok(a.skip(1)));
                }
            }
        }
        lemma_body_end_concat(u + a.take(1), a.skip(1), t);
        assert((u + a.take(1)) + a.skip(1) + seq![93u8] + t =~= s);
        assert(body_end(s, p + 1) == Some(u.len() as int + 1 + (a.len() as int - 1)));
    }
}

/// A run without brackets is a well-formed answer.
pub proof fn lemma_answer_ok_plain(a: Seq<u8>)
    requires
        bracket_free(a),
    ensures
        answer_ok(a),
    decreases a.len(),
{
    if a.len() > 0 {
        assert(!is_esc_at(a, 0)) by {
            if is_esc_at(a, 0) {
                assert(a[1] == 91);
            }
        }
        lemma_answer_ok_plain(a.skip(1));
    }
}

/// Escape handling law, part one: an answer that quotes its own delimiter
/// with the escape `\[\]` between bracket-free runs is well formed.
pub proof fn lemma_answer_ok_with_escape(x: Seq<u8>, y: Seq<u8>)
    requires
        bracket_free(x),
        bracket_free(y),
    ensures
        answer_ok(x + seq![92u8, 91u8, 92u8, 93u8] + y),
    decreases x.len(),
{
    let a = x + seq![92u8, 91u8, 92u8, 93u8] + y;
    if x.len() == 0 {
        assert(is_esc_at(a, 0));
        assert(a.skip(4) =~= y);
        lemma_answer_ok_plain(y);
    } else {
        assert(a[0] == x[0]);
        assert(!is_esc_at(a, 0)) by {
            if is_esc_at(a, 0) {
                if x.len() >= 2 {
                    assert(a[1] == x[1]);
                } else {
                    assert(a[1] == 92);
                }
            }
        }
        lemma_answer_ok_with_escape(x.skip(1), y);
        assert(a.skip(1) =~= x.skip(1) + seq![92u8, 91u8, 92u8, 93u8] + y);
    }
}

/// Escape handling law, part two: a line opening with `?[`, then a
/// well-formed answer, then `]`, yields that very answer — the escape
/// inside it is not taken for the closing delimiter.
pub proof fn lemma_escape_in_answer(a: Seq<u8>, t: Seq<u8>)
    requires
        answer_ok(a),
    ensures
        spec_find_blank(seq![63u8, 91u8] + a + seq![93u8] + t) == Some((0int, a.len() as int + 2)),
        (seq![63u8, 91u8] + a + seq![93u8] + t).subrange(2, a.len() as int + 2) == a,
{
    let s = seq![63u8, 91u8] + a + seq![93u8] + t;
    lemma_body_end_concat(seq![63u8, 91u8], a, t);
    assert(s[0] == 63 && s[1] == 91);
    assert(body_end(s, 2) == Some(a.len() as int + 2));
    assert(s.subrange(2, a.len() as int + 2) =~= a);
}

} // verus!
