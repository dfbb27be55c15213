//! The pure parts of the quiz engine: yes/no answer classification, the
//! score delta folded from the learner's self-grades, and the context
//! block rendered around a blanked line.
use vstd::prelude::*;

use crate::bytes::{trim, trimmed};
use crate::matcher::Blank;

verus! {

/// ASCII case folding: uppercase letters lowered, all else untouched.
pub open spec fn ascii_lower(s: Seq<u8>) -> Seq<u8> {
    s.map_values(
        |b: u8|
            if 65 <= b <= 90 {
                (b + 32) as u8
            } else {
                b
            },
    )
}

/// Yes/no rule: a reply is affirmative exactly when its form after case
/// folding and whitespace trimming is `yes` or `y`; everything else counts
/// as no. Folding is ASCII, which decides every reply: no other character
/// has a lowercase form among the letters of `yes`. Trimming strips ASCII
/// and Unicode whitespace alike.
pub open spec fn spec_is_yes(s: Seq<u8>) -> bool {
    trimmed(ascii_lower(s)) == seq![121u8, 101u8, 115u8] || trimmed(ascii_lower(s)) == seq![121u8]
}

/// Classifies a learner's reply as yes or no.
pub fn is_yes(resp: &[u8]) -> (r: bool)
    ensures
        r == spec_is_yes(resp@),
{
    let len: usize = resp.len();
    let mut low: Vec<u8> = Vec::new();
    let mut i: usize = 0;
    proof {
        assert(low@ =~= ascii_lower(resp@.take(0)));
    }
    while i < len
        invariant
            0 <= i <= len,
            len == resp@.len(),
            low@ == ascii_lower(resp@.take(i as int)),
        decreases len - i,
    {
        let b: u8 = resp[i];
        let f: u8 = if 65 <= b && b <= 90 {
            b + 32
        } else {
            b
        };
        low.push(f);
        proof {
            assert(low@ =~= ascii_lower(resp@.take(i as int + 1)));
        }
        i = i + 1;
    }
    proof {
        assert(resp@.take(len as int) =~= resp@);
    }
    let t: &[u8] = trim(low.as_slice());
    let hit_yes: bool = t.len() == 3 && t[0] == 121 && t[1] == 101 && t[2] == 115;
    let hit_y: bool = t.len() == 1 && t[0] == 121;
    proof {
        if hit_yes {
            assert(t@ =~= seq![121u8, 101u8, 115u8]);
        }
        if hit_y {
            assert(t@ =~= seq![121u8]);
        }
    }
    hit_yes || hit_y
}

/// How many grades are affirmative.
pub open spec fn count_true(s: Seq<bool>) -> int
    decreases s.len(),
{
    if s.len() == 0 {
        0
    } else {
        count_true(s.drop_last()) + if s.last() {
            1int
        } else {
            0int
        }
    }
}

/// The count of affirmative grades never exceeds the number of grades.
pub proof fn lemma_count_true_bounds(s: Seq<bool>)
    ensures
        0 <= count_true(s) <= s.len(),
    decreases s.len(),
{
    if s.len() > 0 {
        lemma_count_true_bounds(s.drop_last());
    }
}

/// Score aggregation law: one pass over a document contributes the number
/// of self-reported correct answers minus the number of incorrect ones.
pub fn score_delta(grades: &Vec<bool>) -> (r: i64)
    requires
        grades@.len() <= i64::MAX,
    ensures
        r == count_true(grades@) - (grades@.len() - count_true(grades@)),
{
    let len: usize = grades.len();
    let mut acc: i64 = 0;
    let mut i: usize = 0;
    proof {
        assert(grades@.take(0) =~= Seq::<bool>::empty());
    }
    while i < len
        invariant
            0 <= i <= len,
            len == grades@.len(),
            len <= i64::MAX,
            acc == count_true(grades@.take(i as int)) - (i - count_true(grades@.take(i as int))),
            0 <= count_true(grades@.take(i as int)) <= i,
        decreases len - i,
    {
        proof {
            assert(grades@.take(i as int + 1).drop_last() =~= grades@.take(i as int));
            assert(grades@.take(i as int + 1).last() == grades@[i as int]);
            lemma_count_true_bounds(grades@.take(i as int + 1));
        }
        if grades[i] {
            acc = acc + 1;
        } else {
            acc = acc - 1;
        }
        i = i + 1;
    }
    proof {
        assert(grades@.take(len as int) =~= grades@);
    }
    acc
}

/// A line with two leading spaces, as the quiz prompt shows context.
pub open spec fn indented(l: Seq<u8>) -> Seq<u8> {
    seq![32u8, 32u8] + l
}

/// The indented lines of a window run together, in order.
pub open spec fn cat_indented(ls: Seq<Seq<u8>>) -> Seq<u8>
    decreases ls.len(),
{
    if ls.len() == 0 {
        Seq::empty()
    } else {
        cat_indented(ls.drop_last()) + indented(ls.last())
    }
}

/// The context window: this many lines are shown before and after a blank.
pub const CTX_LEN: usize = 2;

/// The first line of the context window before `line_no`.
pub open spec fn ctx_first(line_no: int) -> int {
    if line_no >= CTX_LEN as int {
        line_no - CTX_LEN as int
    } else {
        0
    }
}

/// One past the last line of the context window after `line_no`.
pub open spec fn ctx_last(line_no: int, n: int) -> int {
    if line_no + 1 + CTX_LEN as int <= n {
        line_no + 1 + CTX_LEN as int
    } else {
        n
    }
}

/// The quiz prompt for one blank: the context before the line, the line
/// with its answer hidden behind a placeholder, and the context after.
pub struct Context {
    pub before: Vec<u8>,
    pub blanked: Vec<u8>,
    pub after: Vec<u8>,
}

/// Builds the indented run of `lines[from..to]`.
fn cat_window(lines: &Vec<Vec<u8>>, from: usize, to: usize) -> (r: Vec<u8>)
    requires
        from <= to <= lines@.len(),
    ensures
        r@ == cat_indented(lines@.map_values(|l: Vec<u8>| l@).subrange(from as int, to as int)),
{
    let ghost all = lines@.map_values(|l: Vec<u8>| l@);
    let mut out: Vec<u8> = Vec::new();
    let mut k: usize = from;
    proof {
        assert(all.subrange(from as int, from as int) =~= Seq::<Seq<u8>>::empty());
        assert(out@ =~= cat_indented(all.subrange(from as int, from as int)));
    }
    while k < to
        invariant
            from <= k <= to <= lines@.len(),
            all == lines@.map_values(|l: Vec<u8>| l@),
            out@ == cat_indented(all.subrange(from as int, k as int)),
        decreases to - k,
    {
        out.push(32);
        out.push(32);
        out.extend_from_slice(lines[k].as_slice());
        proof {
            let w = all.subrange(from as int, k as int + 1);
            assert(w.drop_last() =~= all.subrange(from as int, k as int));
            assert(w.last() == lines@[k as int]@);
            assert(out@ =~= cat_indented(all.subrange(from as int, k as int)) + indented(
                lines@[k as int]@,
            ));
        }
        k = k + 1;
    }
    out
}

/// Renders the quiz prompt for the blank found on `lines[line_no]`: up to
/// `CTX_LEN` lines before, the blanked line with `____` in place of the
/// answer, and up to `CTX_LEN` lines after, all clamped at the document
/// edges.
pub fn render_context(lines: &Vec<Vec<u8>>, line_no: usize, b: &Blank) -> (r: Context)
    requires
        line_no < lines@.len(),
    ensures
        r.before@ == cat_indented(
            lines@.map_values(|l: Vec<u8>| l@).subrange(
                ctx_first(line_no as int),
                line_no as int,
            ),
        ),
        r.blanked@ == indented(b.prefix@) + seq![95u8, 95u8, 95u8, 95u8] + b.suffix@,
        r.after@ == cat_indented(
            lines@.map_values(|l: Vec<u8>| l@).subrange(
                line_no as int + 1,
                ctx_last(line_no as int, lines@.len() as int),
            ),
        ),
{
    let cs: usize = if line_no >= CTX_LEN {
        line_no - CTX_LEN
    } else {
        0
    };
    let n: usize = lines.len();
    let ce: usize = if n - line_no > CTX_LEN {
        line_no + 1 + CTX_LEN
    } else {
        n
    };
    let before = cat_window(lines, cs, line_no);
    let after = cat_window(lines, line_no + 1, ce);
    let mut blanked: Vec<u8> = Vec::new();
    blanked.push(32);
    blanked.push(32);
    blanked.extend_from_slice(b.prefix.as_slice());
    blanked.push(95);
    blanked.push(95);
    blanked.push(95);
    blanked.push(95);
    blanked.extend_from_slice(b.suffix.as_slice());
    proof {
        assert(blanked@ =~= indented(b.prefix@) + seq![95u8, 95u8, 95u8, 95u8] + b.suffix@);
    }
    Context { before, blanked, after }
}

} // verus!
