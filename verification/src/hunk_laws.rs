//! How the hunks of a patch are read, and what they leave alone.

use vstd::prelude::*;
use crate::lines::split_inclusive;
use crate::numbers::decimal;
use crate::patch::{
    after_body, after_hunk, after_hunks, body_end, context, debug_text, header_start, hunks_of,
    is_file_header, is_hunk_header, parsed_hunks, patched, position, skip_file_headers, HunkView,
    Progress,
};
use crate::patch_laws::law_nearest_place;
use crate::text::starts_with;

verus! {

// ---------------------------------------------------------------------------
// Every hunk counts
// ---------------------------------------------------------------------------

/// Whether a line starts a hunk, as a test.
pub open spec fn starts_hunk() -> spec_fn(Seq<char>) -> bool {
    |l: Seq<char>| starts_with(l, "@@ "@)
}

/// Whether a line starts a hunk without saying where.
pub open spec fn is_malformed(l: Seq<char>) -> bool {
    starts_with(l, "@@ "@) && header_start(l) is None
}

proof fn lemma_body_end(ls: Seq<Seq<char>>)
    ensures
        body_end(ls) <= ls.len(),
        forall|i: int| 0 <= i < body_end(ls) ==> !is_hunk_header(#[trigger] ls[i]),
    decreases ls.len(),
{
    if ls.len() > 0 && !is_hunk_header(ls[0]) {
        let rest = ls.skip(1);
        lemma_body_end(rest);
        assert forall|i: int| 0 <= i < body_end(ls) implies !is_hunk_header(#[trigger] ls[i]) by {
            if i > 0 {
                assert(ls[i] == rest[i - 1]);
            }
        }
    }
}

/// Whether a line is the first of a list that starts a hunk without saying where.
pub open spec fn first_malformed(ls: Seq<Seq<char>>, l: Seq<char>) -> bool {
    exists|i: int|
        0 <= i < ls.len() && ls[i] == l && is_malformed(#[trigger] ls[i]) && forall|j: int|
            0 <= j < i ==> !is_malformed(#[trigger] ls[j])
}

/// Whether every line of a list that starts a hunk says where.
pub open spec fn none_malformed(ls: Seq<Seq<char>>) -> bool {
    forall|i: int| 0 <= i < ls.len() ==> !is_malformed(#[trigger] ls[i])
}

proof fn lemma_behind(ls: Seq<Seq<char>>, k: int, l: Seq<char>)
    requires
        0 <= k <= ls.len(),
        forall|j: int| 0 <= j < k ==> !is_malformed(#[trigger] ls[j]),
    ensures
        none_malformed(ls.skip(k)) ==> none_malformed(ls),
        first_malformed(ls.skip(k), l) ==> first_malformed(ls, l),
{
    let tail = ls.skip(k);
    if none_malformed(tail) {
        assert forall|i: int| 0 <= i < ls.len() implies !is_malformed(#[trigger] ls[i]) by {
            if i >= k {
                assert(tail[i - k] == ls[i]);
            }
        }
    }
    if first_malformed(tail, l) {
        let i = choose|i: int|
            0 <= i < tail.len() && tail[i] == l && is_malformed(#[trigger] tail[i]) && forall|j: int|
                0 <= j < i ==> !is_malformed(#[trigger] tail[j]);
        assert(ls[i + k] == tail[i]);
        assert forall|j: int| 0 <= j < i + k implies !is_malformed(#[trigger] ls[j]) by {
            if j >= k {
                assert(tail[j - k] == ls[j]);
            }
        }
        assert(is_malformed(ls[i + k]));
    }
}

proof fn lemma_headers_read(ls: Seq<Seq<char>>)
    ensures
        match hunks_of(ls) {
            Err(l) => first_malformed(ls, l),
            Ok(hs) => none_malformed(ls),
        },
    decreases ls.len(),
{
    if ls.len() > 0 {
        let rest = ls.skip(1);
        let l = hunks_of(ls)->Err_0;
        if !is_hunk_header(ls[0]) {
            lemma_headers_read(rest);
            lemma_behind(ls, 1, l);
        } else if header_start(ls[0]) is None {
            assert(is_malformed(ls[0]));
            assert(first_malformed(ls, ls[0]));
        } else {
            let k = body_end(rest) as int;
            lemma_body_end(rest);
            let tail = rest.skip(k);
            lemma_headers_read(tail);
            assert(tail =~= ls.skip(k + 1));
            assert forall|j: int| 0 <= j < k + 1 implies !is_malformed(#[trigger] ls[j]) by {
                if j > 0 {
                    assert(rest[j - 1] == ls[j]);
                    assert(!is_hunk_header(rest[j - 1]));
                }
            }
            lemma_behind(ls, k + 1, l);
        }
    }
}

proof fn lemma_count_behind(ls: Seq<Seq<char>>, k: int)
    requires
        0 <= k <= ls.len(),
        forall|j: int| 0 <= j < k ==> !is_hunk_header(#[trigger] ls[j]),
    ensures
        ls.filter(starts_hunk()).len() == ls.skip(k).filter(starts_hunk()).len(),
{
    assert(ls =~= ls.take(k) + ls.skip(k));
    Seq::filter_distributes_over_add(ls.take(k), ls.skip(k), starts_hunk());
    lemma_no_header(ls.take(k));
}

proof fn lemma_count_one(ls: Seq<Seq<char>>)
    requires
        ls.len() > 0,
        is_hunk_header(ls[0]),
    ensures
        ls.filter(starts_hunk()).len() == 1 + ls.skip(1).filter(starts_hunk()).len(),
{
    let one = seq![ls[0]];
    assert(ls =~= one + ls.skip(1));
    Seq::filter_distributes_over_add(one, ls.skip(1), starts_hunk());
    assert(one.filter(starts_hunk()).len() == 1) by {
        reveal(Seq::filter);
        assert(one.drop_last() =~= Seq::empty());
        assert(one.last() == ls[0]);
        assert(one.drop_last().filter(starts_hunk()) =~= Seq::empty());
        assert(starts_hunk()(one.last()));
    }
}

proof fn lemma_hunks_counted(ls: Seq<Seq<char>>)
    ensures
        hunks_of(ls) matches Ok(hs) ==> hs.len() == ls.filter(starts_hunk()).len(),
    decreases ls.len(),
{
    if ls.len() > 0 {
        let rest = ls.skip(1);
        if !is_hunk_header(ls[0]) {
            lemma_hunks_counted(rest);
            lemma_count_behind(ls, 1);
        } else if header_start(ls[0]) is Some {
            let k = body_end(rest) as int;
            lemma_body_end(rest);
            lemma_hunks_counted(rest.skip(k));
            lemma_count_one(ls);
            lemma_count_behind(rest, k);
        }
    } else {
        lemma_no_header(ls);
    }
}

proof fn lemma_no_header(ls: Seq<Seq<char>>)
    requires
        forall|i: int| 0 <= i < ls.len() ==> !is_hunk_header(#[trigger] ls[i]),
    ensures
        ls.filter(starts_hunk()).len() == 0,
    decreases ls.len(),
{
    reveal(Seq::filter);
    if ls.len() > 0 {
        let init = ls.drop_last();
        assert forall|i: int| 0 <= i < init.len() implies !is_hunk_header(#[trigger] init[i]) by {
            assert(init[i] == ls[i]);
        }
        assert(!is_hunk_header(ls[ls.len() - 1]));
        lemma_no_header(init);
    }
}

proof fn lemma_file_headers(ls: Seq<Seq<char>>) -> (k: int)
    ensures
        0 <= k <= ls.len(),
        skip_file_headers(ls) == ls.skip(k),
        forall|j: int| 0 <= j < k ==> !is_hunk_header(#[trigger] ls[j]),
    decreases ls.len(),
{
    if ls.len() > 0 && is_file_header(ls[0]) {
        let rest = ls.skip(1);
        let k = lemma_file_headers(rest);
        assert(rest.skip(k) =~= ls.skip(k + 1));
        reveal_strlit("--- ");
        reveal_strlit("+++ ");
        reveal_strlit("@@ ");
        assert(!is_hunk_header(ls[0])) by {
            if is_hunk_header(ls[0]) {
                assert(ls[0].subrange(0, 3)[0] == '@');
                if starts_with(ls[0], "--- "@) {
                    assert(ls[0].subrange(0, 4)[0] == '-');
                } else {
                    assert(ls[0].subrange(0, 4)[0] == '+');
                }
            }
        }
        assert forall|j: int| 0 <= j < k + 1 implies !is_hunk_header(#[trigger] ls[j]) by {
            if j > 0 {
                assert(rest[j - 1] == ls[j]);
            }
        }
        k + 1
    } else {
        assert(ls.skip(0) =~= ls);
        0
    }
}

/// Each line of a patch that starts with `@@ ` is a hunk of its own. A patch in which one does not
/// say where it starts is not read at all, and the first such line is named.
pub proof fn law_every_hunk_counts(original: Seq<char>, patch: Seq<char>)
    ensures
        match parsed_hunks(patch) {
            Err(l) => first_malformed(split_inclusive(patch), l),
            Ok(hs) => none_malformed(split_inclusive(patch)) && hs.len() == split_inclusive(
                patch,
            ).filter(starts_hunk()).len(),
        },
        patch.len() > 0 && !none_malformed(split_inclusive(patch)) ==> patched(
            original,
            patch,
        ) is Err,
{
    let ls = split_inclusive(patch);
    let k = lemma_file_headers(ls);
    let tail = skip_file_headers(ls);
    lemma_headers_read(tail);
    lemma_hunks_counted(tail);
    lemma_behind(ls, k, parsed_hunks(patch)->Err_0);
    lemma_count_behind(ls, k);
}

/// A hunk whose context stands nowhere near names the first line that it expects, and the line at
/// which it starts, counted from one.
pub proof fn law_mismatch_is_named(ls: Seq<Seq<char>>, st: Progress, h: HunkView)
    requires
        after_hunk(ls, st, h) is Err,
        context(h.body).len() > 0,
    ensures
        after_hunk(ls, st, h) == Err::<Progress, Seq<char>>(
            "context mismatch: cannot find context starting with "@ + debug_text(
                context(h.body)[0],
            ) + " near line "@ + decimal(h.start + 1),
        ),
{
}

// ---------------------------------------------------------------------------
// Context stays
// ---------------------------------------------------------------------------

proof fn lemma_only_context(ls: Seq<Seq<char>>, st: Progress, body: Seq<Seq<char>>)
    requires
        0 <= st.pos <= ls.len(),
        st.output == ls.take(st.pos),
        forall|i: int|
            0 <= i < body.len() ==> (#[trigger] body[i]).len() > 0 && body[i][0] == ' ',
    ensures
        ({
            let end = after_body(ls, st, body);
            0 <= end.pos <= ls.len() && end.output == ls.take(end.pos)
        }),
    decreases body.len(),
{
    if body.len() > 0 {
        let init = body.drop_last();
        assert forall|i: int| 0 <= i < init.len() implies (#[trigger] init[i]).len() > 0
            && init[i][0] == ' ' by {
            assert(init[i] == body[i]);
        }
        assert(body[body.len() - 1][0] == ' ');
        lemma_only_context(ls, st, init);
        let mid = after_body(ls, st, init);
        if mid.pos < ls.len() {
            assert(ls.take(mid.pos).push(ls[mid.pos]) =~= ls.take(mid.pos + 1));
        }
    }
}

/// Hunks that only give context leave every line of a text as it is, with its own end.
pub proof fn law_context_stays(ls: Seq<Seq<char>>, hs: Seq<HunkView>)
    requires
        forall|h: int, i: int|
            0 <= h < hs.len() && 0 <= i < hs[h].body.len() ==> (#[trigger] hs[h].body[i]).len() > 0
                && hs[h].body[i][0] == ' ',
    ensures
        after_hunks(ls, hs) matches Ok(st) ==> 0 <= st.pos <= ls.len() && st.output == ls.take(
            st.pos,
        ) && st.output + ls.skip(st.pos) == ls,
    decreases hs.len(),
{
    if hs.len() == 0 {
        assert(ls.take(0) =~= Seq::empty());
        assert(ls.take(0) + ls.skip(0) =~= ls);
    } else {
        let init = hs.drop_last();
        assert forall|h: int, i: int|
            0 <= h < init.len() && 0 <= i < init[h].body.len() implies (
        #[trigger] init[h].body[i]).len() > 0 && init[h].body[i][0] == ' ' by {
            assert(init[h].body[i] == hs[h].body[i]);
        }
        law_context_stays(ls, init);
        if let Ok(st) = after_hunks(ls, init) {
            let h = hs.last();
            let ctx = context(h.body);
            law_nearest_place(ls, st.pos, ctx, h.start as int);
            if let Some(p) = position(ls, st.pos, ctx, h.start as int) {
                assert(ls.take(st.pos) + ls.subrange(st.pos, p) =~= ls.take(p));
                let l = hs.len() - 1;
                assert forall|i: int| 0 <= i < h.body.len() implies (#[trigger] h.body[i]).len() > 0
                    && h.body[i][0] == ' ' by {
                    assert(hs[l].body[i] == h.body[i]);
                }
                lemma_only_context(ls, Progress { output: ls.take(p), pos: p }, h.body);
                let end = after_hunks(ls, hs)->Ok_0;
                assert(ls.take(end.pos) + ls.skip(end.pos) =~= ls);
            }
        }
    }
}

} // verus!
