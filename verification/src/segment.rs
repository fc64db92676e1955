//! Display-width-aware string segmentation.
//!
//! Splits text into chunks whose rendered terminal width stays within a
//! caller-given column budget, without ever cutting a character in two.

use vstd::prelude::*;

verus! {

/// The display width, in terminal columns, of one character under the
/// East-Asian-width convention (wide CJK ideographs and fullwidth forms
/// occupy two columns, ordinary Latin text one, zero-width characters none).
pub uninterp spec fn char_width(c: char) -> nat;

/// Relies on unicode_width's `UnicodeWidthChar::width_cjk` for the per-character
/// column width: the result depends on the character alone; a control
/// character, for which the table gives no width, counts as zero columns.
#[verifier::external_body]
fn char_display_width(c: char) -> (w: usize)
    ensures
        w == char_width(c),
{
    unicode_width::UnicodeWidthChar::width_cjk(c).unwrap_or(0)
}

/// Total display width of a sequence of characters.
pub open spec fn seq_width(s: Seq<char>) -> nat
    decreases s.len(),
{
    if s.len() == 0 {
        0
    } else {
        (char_width(s[0]) + seq_width(s.skip(1))) as nat
    }
}

/// How many leading characters of `s` the greedy scan consumes under a column
/// budget of `left`: characters are taken while the budget lasts, and the scan
/// halts at the first character that does not fit in what remains.
pub open spec fn take_count(s: Seq<char>, left: nat) -> nat
    decreases s.len(),
{
    if s.len() == 0 || left == 0 {
        0
    } else if char_width(s[0]) <= left {
        (1 + take_count(s.skip(1), (left - char_width(s[0])) as nat)) as nat
    } else {
        0
    }
}

proof fn lemma_take_count_le_len(s: Seq<char>, left: nat)
    ensures
        take_count(s, left) <= s.len(),
    decreases s.len(),
{
    if s.len() == 0 || left == 0 {
    } else if char_width(s[0]) <= left {
        lemma_take_count_le_len(s.skip(1), (left - char_width(s[0])) as nat);
    }
}

proof fn lemma_seq_width_cons(c: char, t: Seq<char>)
    ensures
        seq_width(seq![c] + t) == char_width(c) + seq_width(t),
{
    let s = seq![c] + t;
    assert(s[0] == c);
    assert(s.skip(1) =~= t);
}

/// The head that the greedy scan takes fits the budget it was given.
proof fn lemma_take_width_le_budget(s: Seq<char>, left: nat)
    ensures
        seq_width(s.take(take_count(s, left) as int)) <= left,
    decreases s.len(),
{
    let k = take_count(s, left);
    if s.len() == 0 || left == 0 {
        assert(s.take(0) =~= Seq::<char>::empty());
    } else if char_width(s[0]) <= left {
        let w0 = char_width(s[0]);
        let rest = s.skip(1);
        lemma_take_count_le_len(rest, (left - w0) as nat);
        lemma_take_width_le_budget(rest, (left - w0) as nat);
        assert(s.take(k as int) =~= seq![s[0]] + rest.take(k as int - 1));
        lemma_seq_width_cons(s[0], rest.take(k as int - 1));
    } else {
        assert(s.take(0) =~= Seq::<char>::empty());
    }
}

/// The full greedy segmentation of `s` under a column budget of `width`:
/// repeatedly cut off the longest prefix that fits, until the text is
/// exhausted. `None` when the scan can make no forward progress on non-empty
/// remaining text; the empty text yields zero chunks.
pub open spec fn split_spec(s: Seq<char>, width: nat) -> Option<Seq<Seq<char>>>
    decreases s.len(),
    via split_spec_decreases
{
    if s.len() == 0 {
        Some(Seq::empty())
    } else {
        let k = take_count(s, width);
        if k == 0 {
            None
        } else {
            match split_spec(s.skip(k as int), width) {
                Some(rest) => Some(seq![s.take(k as int)] + rest),
                None => None,
            }
        }
    }
}

#[via_fn]
proof fn split_spec_decreases(s: Seq<char>, width: nat) {
    lemma_take_count_le_len(s, width);
}

/// Splits `text` into the full greedy sequence of chunks, each the prefix
/// the scan takes from the remaining text under a budget of `width` columns;
/// `None` when no non-empty chunk can be cut from some non-empty remainder.
pub fn width_split<'a>(text: &'a str, width: usize) -> (r: Option<Vec<&'a str>>)
    ensures
        match r {
            Some(chunks) => split_spec(text@, width as nat) == Some(chunks.deep_view()),
            None => split_spec(text@, width as nat) is None,
        },
{
    let mut chunks: Vec<&'a str> = Vec::new();
    let mut rest: &'a str = text;
    loop
        invariant
            (split_spec(text@, width as nat) is Some) == (split_spec(rest@, width as nat)
                is Some),
            split_spec(rest@, width as nat) matches Some(suffix) ==> split_spec(
                text@,
                width as nat,
            ) == Some(chunks.deep_view() + suffix),
        decreases rest@.len(),
    {
        if rest.unicode_len() == 0 {
            proof {
                assert(chunks.deep_view() + Seq::<Seq<char>>::empty() =~= chunks.deep_view());
            }
            return Some(chunks);
        }
        let (head, tail) = width_split_head(rest, width);
        proof {
            lemma_take_count_le_len(rest@, width as nat);
        }
        if head.unicode_len() == 0 {
            return None;
        }
        let ghost old_chunks = chunks.deep_view();
        chunks.push(head);
        proof {
            assert(chunks.deep_view() =~= old_chunks + seq![head@]);
            if let Some(suffix) = split_spec(tail@, width as nat) {
                assert(old_chunks + (seq![head@] + suffix) =~= (old_chunks + seq![head@])
                    + suffix);
            }
        }
        rest = tail;
    }
}

/// Splits `text` into the prefix the greedy scan consumes — characters are
/// taken while the budget lasts, and the scan halts at the first that does
/// not fit in what remains — and the remainder. The head never exceeds
/// `head_width` columns.
pub fn width_split_head(text: &str, head_width: usize) -> (r: (&str, &str))
    ensures
        r.0@ == text@.take(take_count(text@, head_width as nat) as int),
        r.1@ == text@.skip(take_count(text@, head_width as nat) as int),
        r.0@ + r.1@ == text@,
        seq_width(r.0@) <= head_width,
        r.0@.len() > 0 ==> r.1@.len() < text@.len(),
{
    let n = text.unicode_len();
    let mut i: usize = 0;
    let mut left: usize = head_width;
    proof {
        assert(text@.skip(0) =~= text@);
    }
    loop
        invariant
            0 <= i <= n,
            n == text@.len(),
            take_count(text@, head_width as nat) == i + take_count(text@.skip(i as int), left as nat),
        ensures
            take_count(text@.skip(i as int), left as nat) == 0,
        decreases n - i,
    {
        if i == n {
            proof {
                assert(text@.skip(i as int).len() == 0);
            }
            break;
        }
        if left == 0 {
            break;
        }
        let c = text.get_char(i);
        let w = char_display_width(c);
        proof {
            assert(text@.skip(i as int)[0] == text@[i as int]);
            assert(text@.skip(i as int).skip(1) =~= text@.skip(i + 1));
        }
        if w <= left {
            left = left - w;
            i = i + 1;
        } else {
            break;
        }
    }
    proof {
        lemma_take_count_le_len(text@, head_width as nat);
        lemma_take_width_le_budget(text@, head_width as nat);
        assert(text@.take(i as int) + text@.skip(i as int) =~= text@);
    }
    let head = text.substring_char(0, i);
    let tail = text.substring_char(i, n);
    proof {
        assert(head@ =~= text@.take(i as int));
        assert(tail@ =~= text@.skip(i as int));
    }
    (head, tail)
}

/// The two segmentation operations as methods on text, for callers that
/// prefer `text.width_split(w)` over the free functions.
pub trait StrExt {
    spec fn text(&self) -> Seq<char>;

    fn width_split_head(&self, head_width: usize) -> (r: (&str, &str))
        ensures
            r.0@ == self.text().take(take_count(self.text(), head_width as nat) as int),
            r.1@ == self.text().skip(take_count(self.text(), head_width as nat) as int),
            r.0@ + r.1@ == self.text(),
            seq_width(r.0@) <= head_width,
            r.0@.len() > 0 ==> r.1@.len() < self.text().len(),
    ;

    fn width_split(&self, width: usize) -> (r: Option<Vec<&str>>)
        ensures
            match r {
                Some(chunks) => split_spec(self.text(), width as nat) == Some(
                    chunks.deep_view(),
                ),
                None => split_spec(self.text(), width as nat) is None,
            },
    ;
}

impl StrExt for str {
    open spec fn text(&self) -> Seq<char> {
        self@
    }

    fn width_split_head(&self, head_width: usize) -> (r: (&str, &str)) {
        width_split_head(self, head_width)
    }

    fn width_split(&self, width: usize) -> (r: Option<Vec<&str>>) {
        width_split(self, width)
    }
}

/// The concatenation, in order, of a sequence of chunks.
pub open spec fn concat_chunks(chunks: Seq<Seq<char>>) -> Seq<char>
    decreases chunks.len(),
{
    if chunks.len() == 0 {
        Seq::empty()
    } else {
        chunks[0] + concat_chunks(chunks.skip(1))
    }
}

/// Reconstruction: a successful segmentation concatenates, in order, back to
/// exactly the text it was made from.
pub proof fn lemma_split_reconstructs(s: Seq<char>, width: nat)
    ensures
        split_spec(s, width) matches Some(chunks) ==> concat_chunks(chunks) == s,
    decreases s.len(),
{
    if s.len() == 0 {
        if let Some(chunks) = split_spec(s, width) {
            assert(concat_chunks(chunks) =~= s);
        }
    } else {
        let k = take_count(s, width);
        if k != 0 {
            lemma_take_count_le_len(s, width);
            lemma_split_reconstructs(s.skip(k as int), width);
            if let Some(rest) = split_spec(s.skip(k as int), width) {
                let chunks = seq![s.take(k as int)] + rest;
                assert(chunks[0] == s.take(k as int));
                assert(chunks.skip(1) =~= rest);
                assert(s.take(k as int) + s.skip(k as int) =~= s);
            }
        }
    }
}

/// Where the `i`th chunk of a chunk sequence begins, counted in characters
/// from the start of the concatenation.
pub open spec fn chunk_start(chunks: Seq<Seq<char>>, i: int) -> int
    decreases i,
{
    if i <= 0 {
        0
    } else {
        chunk_start(chunks, i - 1) + chunks[i - 1].len()
    }
}

proof fn lemma_chunk_start_skip(chunks: Seq<Seq<char>>, i: int)
    requires
        1 <= i <= chunks.len(),
    ensures
        chunk_start(chunks, i) == chunks[0].len() + chunk_start(chunks.skip(1), i - 1),
    decreases i,
{
    if i > 1 {
        lemma_chunk_start_skip(chunks, i - 1);
        assert(chunks.skip(1)[i - 2] == chunks[i - 1]);
    } else {
        assert(chunk_start(chunks, 0) == 0);
        assert(chunk_start(chunks.skip(1), 0) == 0);
    }
}

proof fn lemma_concat_subrange(chunks: Seq<Seq<char>>, i: int)
    requires
        0 <= i < chunks.len(),
    ensures
        0 <= chunk_start(chunks, i),
        chunk_start(chunks, i) + chunks[i].len() <= concat_chunks(chunks).len(),
        concat_chunks(chunks).subrange(
            chunk_start(chunks, i),
            chunk_start(chunks, i) + chunks[i].len(),
        ) == chunks[i],
    decreases i,
{
    let whole = concat_chunks(chunks);
    if i == 0 {
        assert(whole.subrange(0, chunks[0].len() as int) =~= chunks[0]);
    } else {
        lemma_chunk_start_skip(chunks, i);
        lemma_concat_subrange(chunks.skip(1), i - 1);
        assert(chunks.skip(1)[i - 1] == chunks[i]);
        let lo = chunk_start(chunks, i);
        let hi = lo + chunks[i].len();
        assert(whole.subrange(lo, hi) =~= concat_chunks(chunks.skip(1)).subrange(
            chunk_start(chunks.skip(1), i - 1),
            chunk_start(chunks.skip(1), i - 1) + chunks[i].len(),
        ));
    }
}

/// No chunk boundary falls inside a character: every chunk of a successful
/// segmentation is a contiguous run of whole characters of the input,
/// standing at its own character offset.
pub proof fn lemma_split_chunks_are_runs(s: Seq<char>, width: nat, i: int)
    ensures
        split_spec(s, width) matches Some(chunks) ==> (0 <= i < chunks.len() ==> chunks[i]
            == s.subrange(chunk_start(chunks, i), chunk_start(chunks, i) + chunks[i].len())),
{
    if let Some(chunks) = split_spec(s, width) {
        if 0 <= i < chunks.len() {
            lemma_split_reconstructs(s, width);
            lemma_concat_subrange(chunks, i);
        }
    }
}

/// Degenerate budgets: with no columns at all, nothing is consumed, whatever
/// the text; and a text that opens with a two-column character yields an
/// empty head under a single-column budget as well.
pub proof fn lemma_degenerate_budget(s: Seq<char>)
    ensures
        take_count(s, 0) == 0,
        s.len() > 0 && char_width(s[0]) == 2 ==> take_count(s, 1) == 0,
{
}

/// Feasibility: a budget of at least one column that also covers the widest
/// character of the text never yields the infeasible marker.
pub proof fn lemma_split_feasible(s: Seq<char>, width: nat)
    ensures
        (1 <= width && (forall|i: int| 0 <= i < s.len() ==> char_width(#[trigger] s[i]) <= width))
            ==> split_spec(s, width) is Some,
    decreases s.len(),
{
    if 1 <= width && (forall|i: int| 0 <= i < s.len() ==> char_width(#[trigger] s[i]) <= width) {
        if s.len() > 0 {
            assert(char_width(s[0]) <= width);
            let k = take_count(s, width);
            assert(k >= 1);
            lemma_take_count_le_len(s, width);
            let rest = s.skip(k as int);
            assert forall|i: int| 0 <= i < rest.len() implies char_width(#[trigger] rest[i])
                <= width by {
                assert(rest[i] == s[i + k]);
            }
            lemma_split_feasible(rest, width);
        }
    }
}

/// Every chunk of a successful segmentation is non-empty and fits the budget.
pub proof fn lemma_split_chunks_fit(s: Seq<char>, width: nat)
    ensures
        split_spec(s, width) matches Some(chunks) ==> forall|i: int|
            0 <= i < chunks.len() ==> (#[trigger] chunks[i]).len() > 0 && seq_width(chunks[i])
                <= width,
    decreases s.len(),
{
    if let Some(chunks) = split_spec(s, width) {
        if s.len() > 0 {
            let k = take_count(s, width);
            lemma_take_count_le_len(s, width);
            lemma_take_width_le_budget(s, width);
            lemma_split_chunks_fit(s.skip(k as int), width);
            let rest = split_spec(s.skip(k as int), width)->Some_0;
            assert forall|i: int| 0 <= i < chunks.len() implies (#[trigger] chunks[i]).len() > 0
                && seq_width(chunks[i]) <= width by {
                if i > 0 {
                    assert(chunks[i] == rest[i - 1]);
                }
            }
        }
    }
}

} // verus!
