//! Unified diffs: parsing them and applying them to a text.

use vstd::prelude::*;
use vstd::string::StringExecFns;
use crate::error::SkillfileError;
use crate::lines::{lines_inclusive, split_at_char, split_char, split_inclusive, split_words, words};
use crate::numbers::{decimal, parse_decimal, parse_usize, size_number};
pub use crate::patch_paths::{
    dir_patch_path, dir_patches_root, patch_path, patches_root, PATCHES_DIR,
};
pub use crate::path_order::{has_dir_patch, walkdir};
pub use crate::unified::generate_patch;
use crate::text::{concat, concat_all, same, slice_string, starts, starts_with, texts, to_chars};

verus! {

// ---------------------------------------------------------------------------
// What a patch text says
// ---------------------------------------------------------------------------

/// The quoted form of a text, with its special characters escaped.
pub uninterp spec fn debug_text(s: Seq<char>) -> Seq<char>;

/// One hunk: the line of the old text it starts at, counted from zero, and its lines.
pub struct HunkView {
    pub start: nat,
    pub body: Seq<Seq<char>>,
}

/// Whether a line names one of the two files.
pub open spec fn is_file_header(l: Seq<char>) -> bool {
    starts_with(l, "--- "@) || starts_with(l, "+++ "@)
}

/// Whether a line starts a hunk.
pub open spec fn is_hunk_header(l: Seq<char>) -> bool {
    starts_with(l, "@@ "@)
}

/// Whether a line is a remark about the line before it.
pub open spec fn is_marker(l: Seq<char>) -> bool {
    starts_with(l, "\\ "@)
}

/// A text without the dashes at its start.
pub open spec fn trim_dashes(s: Seq<char>) -> Seq<char>
    decreases s.len(),
{
    if s.len() > 0 && s[0] == '-' {
        trim_dashes(s.skip(1))
    } else {
        s
    }
}

/// A text without the line feeds at its end.
pub open spec fn trim_newlines(s: Seq<char>) -> Seq<char>
    decreases s.len(),
{
    if s.len() > 0 && s.last() == '\n' {
        trim_newlines(s.drop_last())
    } else {
        s
    }
}

/// The position of line `n`, counted from zero. A header gives an empty range by the line before
/// it, so such a range starts one line later.
pub open spec fn zero_based(n: nat, empty: bool) -> nat {
    if n == 0 || (empty && n < usize::MAX) {
        n
    } else {
        (n - 1) as nat
    }
}

/// Where a hunk starts: at the first number in the second word of its header, which a count of
/// lines may follow.
pub open spec fn header_start(l: Seq<char>) -> Option<nat> {
    let w = words(l);
    if w.len() < 2 {
        None
    } else {
        let range = split_at_char(trim_dashes(w[1]), ',');
        match parse_decimal(range[0], usize::MAX as nat) {
            Some(n) => Some(zero_based(n, range.len() > 1 && range[1] == "0"@)),
            None => None,
        }
    }
}

/// The lines after the file headers at the start.
pub open spec fn skip_file_headers(ls: Seq<Seq<char>>) -> Seq<Seq<char>>
    decreases ls.len(),
{
    if ls.len() > 0 && is_file_header(ls[0]) {
        skip_file_headers(ls.skip(1))
    } else {
        ls
    }
}

/// How many lines there are before the header of the next hunk. A removed line may look like the
/// name of a file, so only such a header ends a hunk.
pub open spec fn body_end(ls: Seq<Seq<char>>) -> nat
    decreases ls.len(),
{
    if ls.len() == 0 || is_hunk_header(ls[0]) {
        0
    } else {
        1 + body_end(ls.skip(1))
    }
}

/// The lines that are no markers.
pub open spec fn without_markers(ls: Seq<Seq<char>>) -> Seq<Seq<char>>
    decreases ls.len(),
{
    if ls.len() == 0 {
        ls
    } else {
        let init = without_markers(ls.drop_last());
        if is_marker(ls.last()) {
            init
        } else {
            init.push(ls.last())
        }
    }
}

/// The hunks in a list of lines, or the first hunk header that is malformed.
pub open spec fn hunks_of(ls: Seq<Seq<char>>) -> Result<Seq<HunkView>, Seq<char>>
    decreases ls.len(),
{
    if ls.len() == 0 {
        Ok(Seq::empty())
    } else if !is_hunk_header(ls[0]) {
        hunks_of(ls.skip(1))
    } else {
        match header_start(ls[0]) {
            None => Err(ls[0]),
            Some(n) => {
                let rest = ls.skip(1);
                let k = body_end(rest) as int;
                let tail = if 0 <= k <= rest.len() {
                    rest.skip(k)
                } else {
                    Seq::empty()
                };
                match hunks_of(tail) {
                    Err(e) => Err(e),
                    Ok(hs) => Ok(
                        seq![HunkView { start: n, body: without_markers(rest.take(k)) }] + hs,
                    ),
                }
            },
        }
    }
}

/// The hunks of a patch text, or the first hunk header that is malformed.
pub open spec fn parsed_hunks(patch: Seq<char>) -> Result<Seq<HunkView>, Seq<char>> {
    hunks_of(skip_file_headers(split_inclusive(patch)))
}

// ---------------------------------------------------------------------------
// What a patch does to a text
// ---------------------------------------------------------------------------

/// Whether a line of a hunk stands for a line of the old text.
pub open spec fn is_old_line(l: Seq<char>) -> bool {
    l.len() > 0 && (l[0] == ' ' || l[0] == '-')
}

/// The lines of the old text that a hunk expects, without their ends.
pub open spec fn context(body: Seq<Seq<char>>) -> Seq<Seq<char>>
    decreases body.len(),
{
    if body.len() == 0 {
        Seq::empty()
    } else {
        let c = context(body.drop_last());
        if is_old_line(body.last()) {
            c.push(trim_newlines(body.last().skip(1)))
        } else {
            c
        }
    }
}

/// Whether the expected lines stand in the text at a position.
pub open spec fn matches_at(ls: Seq<Seq<char>>, start: int, ctx: Seq<Seq<char>>) -> bool {
    &&& 0 <= start
    &&& start + ctx.len() <= ls.len()
    &&& forall|i: int| 0 <= i < ctx.len() ==> trim_newlines(ls[start + i]) == #[trigger] ctx[i]
}

/// Whether a hunk can be applied at a position: behind what was applied before it, where its
/// expected lines stand.
pub open spec fn fits(ls: Seq<Seq<char>>, min_pos: int, ctx: Seq<Seq<char>>, c: int) -> bool {
    min_pos <= c && matches_at(ls, c, ctx)
}

/// The fitting position that is nearest to `center`, from `delta` to 99 lines away; of two as
/// near as each other the later one.
pub open spec fn nearest(
    ls: Seq<Seq<char>>,
    min_pos: int,
    ctx: Seq<Seq<char>>,
    center: int,
    delta: int,
) -> Option<int>
    decreases 100 - delta,
{
    if delta >= 100 {
        None
    } else if fits(ls, min_pos, ctx, center + delta) {
        Some(center + delta)
    } else if fits(ls, min_pos, ctx, center - delta) {
        Some(center - delta)
    } else {
        nearest(ls, min_pos, ctx, center, delta + 1)
    }
}

/// Where a hunk is applied: at its own position where it fits, else at the nearest one.
pub open spec fn position(
    ls: Seq<Seq<char>>,
    min_pos: int,
    ctx: Seq<Seq<char>>,
    start: int,
) -> Option<int> {
    if fits(ls, min_pos, ctx, start) {
        Some(start)
    } else {
        nearest(ls, min_pos, ctx, start, 1)
    }
}

/// How far a patch has been applied: the lines written, and the next line of the old text.
pub struct Progress {
    pub output: Seq<Seq<char>>,
    pub pos: int,
}

/// What one line of a hunk does.
pub open spec fn after_line(ls: Seq<Seq<char>>, st: Progress, hl: Seq<char>) -> Progress {
    if hl.len() == 0 {
        st
    } else if hl[0] == ' ' {
        if st.pos < ls.len() {
            Progress { output: st.output.push(ls[st.pos]), pos: st.pos + 1 }
        } else {
            st
        }
    } else if hl[0] == '-' {
        Progress { output: st.output, pos: st.pos + 1 }
    } else if hl[0] == '+' {
        Progress { output: st.output.push(hl.skip(1)), pos: st.pos }
    } else {
        st
    }
}

/// What the lines of a hunk do, one after another.
pub open spec fn after_body(ls: Seq<Seq<char>>, st: Progress, body: Seq<Seq<char>>) -> Progress
    decreases body.len(),
{
    if body.len() == 0 {
        st
    } else {
        after_line(ls, after_body(ls, st, body.drop_last()), body.last())
    }
}

/// Why a hunk does not apply.
pub open spec fn mismatch_text(ctx: Seq<Seq<char>>, start: int) -> Seq<char> {
    if ctx.len() > 0 {
        "context mismatch: cannot find context starting with "@ + debug_text(ctx[0])
            + " near line "@ + decimal((start + 1) as nat)
    } else {
        "patch extends beyond end of file"@
    }
}

/// What one hunk does, or why it does not apply.
pub open spec fn after_hunk(ls: Seq<Seq<char>>, st: Progress, h: HunkView) -> Result<
    Progress,
    Seq<char>,
> {
    let ctx = context(h.body);
    let start = h.start as int;
    match position(ls, st.pos, ctx, start) {
        None => Err(mismatch_text(ctx, start)),
        Some(p) => Ok(
            after_body(
                ls,
                Progress { output: st.output + ls.subrange(st.pos, p), pos: p },
                h.body,
            ),
        ),
    }
}

/// What a list of hunks does, one after another, or why the first that fails does not apply.
pub open spec fn after_hunks(ls: Seq<Seq<char>>, hs: Seq<HunkView>) -> Result<Progress, Seq<char>>
    decreases hs.len(),
{
    if hs.len() == 0 {
        Ok(Progress { output: Seq::empty(), pos: 0 })
    } else {
        match after_hunks(ls, hs.drop_last()) {
            Err(e) => Err(e),
            Ok(st) => after_hunk(ls, st, hs.last()),
        }
    }
}

/// The text that a patch makes of a text, or why it does not apply.
pub open spec fn patched(original: Seq<char>, patch: Seq<char>) -> Result<Seq<char>, Seq<char>> {
    if patch.len() == 0 {
        Ok(original)
    } else {
        let ls = split_inclusive(original);
        match parsed_hunks(patch) {
            Err(l) => Err("malformed hunk header: "@ + debug_text(l)),
            Ok(hs) => match after_hunks(ls, hs) {
                Err(e) => Err(e),
                Ok(st) => Ok(concat(st.output + ls.skip(st.pos))),
            },
        }
    }
}

// ---------------------------------------------------------------------------
// Parsing
// ---------------------------------------------------------------------------

/// One hunk of a patch.
pub struct Hunk {
    pub start: usize,
    pub body: Vec<String>,
}

impl View for Hunk {
    type V = HunkView;

    open spec fn view(&self) -> HunkView {
        HunkView { start: self.start as nat, body: texts(self.body@) }
    }
}

/// The contents of a list of hunks.
pub open spec fn hunk_views(v: Seq<Hunk>) -> Seq<HunkView> {
    v.map_values(|h: Hunk| h@)
}

/// The quoted form of a text: `format!("{:?}", s)` of std, which is only named here.
#[verifier::external_body]
fn quoted(s: &str) -> (r: String)
    ensures
        r@ == debug_text(s@),
{
    format!("{:?}", s)
}

fn without_dashes(s: &str) -> (r: String)
    ensures
        r@ == trim_dashes(s@),
{
    let v = to_chars(s);
    let mut i: usize = 0;
    assert(s@.skip(0) =~= s@);
    while i < v.len() && v[i] == '-'
        invariant
            v@ == s@,
            i <= v@.len(),
            trim_dashes(s@) == trim_dashes(s@.skip(i as int)),
        decreases v@.len() - i,
    {
        assert(s@.skip(i as int).skip(1) =~= s@.skip(i + 1));
        i += 1;
    }
    assert(s@.skip(i as int) =~= v@.subrange(i as int, v@.len() as int));
    slice_string(&v, i, v.len())
}

fn without_newlines(s: &str) -> (r: String)
    ensures
        r@ == trim_newlines(s@),
{
    let v = to_chars(s);
    let mut n: usize = v.len();
    assert(s@.take(n as int) =~= s@);
    while n > 0 && v[n - 1] == '\n'
        invariant
            v@ == s@,
            n <= v@.len(),
            trim_newlines(s@) == trim_newlines(s@.take(n as int)),
        decreases n,
    {
        assert(s@.take(n as int).drop_last() =~= s@.take(n - 1));
        n -= 1;
    }
    assert(s@.take(n as int) =~= v@.subrange(0, n as int));
    slice_string(&v, 0, n)
}

fn hunk_start_of(l: &str) -> (r: Option<usize>)
    ensures
        match r {
            Some(n) => header_start(l@) == Some(n as nat) && n < usize::MAX,
            None => header_start(l@) is None,
        },
{
    let w = split_words(l);
    if w.len() < 2 {
        assert(texts(w@).len() == w@.len());
        return None;
    }
    let t = without_dashes(&w[1]);
    assert(w@[1]@ == texts(w@)[1]);
    let parts = split_char(&t, ',');
    assert(texts(parts@).len() == parts@.len());
    assert(parts@[0]@ == texts(parts@)[0]);
    let mut empty = false;
    if parts.len() > 1 {
        assert(parts@[1]@ == texts(parts@)[1]);
        empty = same(&parts[1], "0");
    }
    match parse_usize(&parts[0]) {
        None => None,
        Some(n) => if n == 0 || (empty && n < usize::MAX) {
            Some(n)
        } else {
            Some(n - 1)
        },
    }
}

proof fn lemma_body_end_bound(ls: Seq<Seq<char>>)
    ensures
        body_end(ls) <= ls.len(),
    decreases ls.len(),
{
    if ls.len() > 0 && !is_hunk_header(ls[0]) {
        lemma_body_end_bound(ls.skip(1));
    }
}

/// Collects the lines of one hunk from line `from` on; gives them and the line behind them.
fn collect_hunk_body(lines: &Vec<String>, from: usize) -> (r: (Vec<String>, usize))
    requires
        from <= lines@.len(),
    ensures
        from <= r.1 <= lines@.len(),
        r.1 == from + body_end(texts(lines@).skip(from as int)),
        texts(r.0@) == without_markers(texts(lines@).subrange(from as int, r.1 as int)),
{
    let ghost ls = texts(lines@);
    let mut body: Vec<String> = Vec::new();
    let mut i: usize = from;
    assert(texts(body@) =~= without_markers(ls.subrange(from as int, from as int)));
    while i < lines.len() && !starts(&lines[i], "@@ ")
        invariant
            ls == texts(lines@),
            from <= i <= lines@.len(),
            body_end(ls.skip(from as int)) == (i - from) + body_end(ls.skip(i as int)),
            texts(body@) == without_markers(ls.subrange(from as int, i as int)),
        decreases lines@.len() - i,
    {
        let ghost before = texts(body@);
        assert(ls.skip(i as int)[0] == lines@[i as int]@);
        assert(ls.skip(i as int).skip(1) =~= ls.skip(i + 1));
        assert(ls.subrange(from as int, i + 1).drop_last() =~= ls.subrange(from as int, i as int));
        assert(ls.subrange(from as int, i + 1).last() == lines@[i as int]@);
        if !starts(&lines[i], "\\ ") {
            body.push(lines[i].clone());
            assert(texts(body@) =~= before.push(lines@[i as int]@));
        }
        i += 1;
    }
    proof {
        if i < lines@.len() {
            assert(ls.skip(i as int)[0] == lines@[i as int]@);
        }
    }
    (body, i)
}

/// Whether the line behind the start of each hunk can still be counted.
spec fn in_range(hunks: Seq<Hunk>) -> bool {
    forall|i: int| 0 <= i < hunks.len() ==> (#[trigger] hunks[i]).start < usize::MAX
}

/// Parses the hunks of a patch text.
fn parse_hunks(patch_text: &str) -> (r: Result<Vec<Hunk>, SkillfileError>)
    ensures
        match parsed_hunks(patch_text@) {
            Ok(hs) => r matches Ok(v) && hunk_views(v@) == hs,
            Err(l) => r matches Err(SkillfileError::Manifest(m)) && m@
                == "malformed hunk header: "@ + debug_text(l),
        },
        r matches Ok(v) ==> in_range(v@),
{
    let lines = lines_inclusive(patch_text);
    let ghost ls = texts(lines@);
    let mut pi: usize = 0;
    assert(ls.skip(0) =~= ls);
    while pi < lines.len() && (starts(&lines[pi], "--- ") || starts(&lines[pi], "+++ "))
        invariant
            ls == texts(lines@),
            pi <= lines@.len(),
            skip_file_headers(ls) == skip_file_headers(ls.skip(pi as int)),
        decreases lines@.len() - pi,
    {
        assert(ls.skip(pi as int)[0] == lines@[pi as int]@);
        assert(ls.skip(pi as int).skip(1) =~= ls.skip(pi + 1));
        pi += 1;
    }
    proof {
        if pi < lines@.len() {
            assert(ls.skip(pi as int)[0] == lines@[pi as int]@);
        }
    }
    let ghost all = ls.skip(pi as int);
    assert(all == skip_file_headers(ls));
    let mut hunks: Vec<Hunk> = Vec::new();
    assert(hunk_views(hunks@) =~= Seq::empty());
    proof {
        lemma_after_prefix(Seq::empty(), all);
    }
    while pi < lines.len()
        invariant
            ls == texts(lines@),
            ls == split_inclusive(patch_text@),
            all == skip_file_headers(ls),
            pi <= lines@.len(),
            hunks_of(all) == with_prefix(hunk_views(hunks@), hunks_of(ls.skip(pi as int))),
            in_range(hunks@),
        decreases lines@.len() - pi,
    {
        let ghost here = ls.skip(pi as int);
        let ghost before = hunk_views(hunks@);
        assert(here[0] == lines@[pi as int]@);
        assert(here.skip(1) =~= ls.skip(pi + 1));
        if !starts(&lines[pi], "@@ ") {
            pi += 1;
            continue;
        }
        match hunk_start_of(&lines[pi]) {
            None => {
                let mut m: String = String::from_str("malformed hunk header: ");
                let q = quoted(&lines[pi]);
                m.append(&q);
                assert(hunks_of(all) == Err::<Seq<HunkView>, Seq<char>>(here[0]));
                return Err(SkillfileError::Manifest(m));
            },
            Some(start) => {
                let (body, next) = collect_hunk_body(&lines, pi + 1);
                let ghost rest = here.skip(1);
                proof {
                    lemma_body_end_bound(rest);
                    let k = body_end(rest) as int;
                    assert(rest.skip(k) =~= ls.skip(next as int));
                    assert(rest.take(k) =~= ls.subrange(pi + 1, next as int));
                }
                let h = Hunk { start, body };
                let ghost hv = h@;
                hunks.push(h);
                proof {
                    assert(hunk_views(hunks@) =~= before.push(hv));
                    lemma_prefix_step(before, hv, hunks_of(ls.skip(next as int)));
                }
                pi = next;
            },
        }
    }
    proof {
        assert(ls.skip(pi as int).len() == 0);
        assert(hunk_views(hunks@) + Seq::<HunkView>::empty() =~= hunk_views(hunks@));
    }
    Ok(hunks)
}

/// Hunks found before the rest was parsed.
pub open spec fn with_prefix(
    done: Seq<HunkView>,
    rest: Result<Seq<HunkView>, Seq<char>>,
) -> Result<Seq<HunkView>, Seq<char>> {
    match rest {
        Ok(hs) => Ok(done + hs),
        Err(l) => Err(l),
    }
}

proof fn lemma_after_prefix(done: Seq<HunkView>, ls: Seq<Seq<char>>)
    requires
        done.len() == 0,
    ensures
        with_prefix(done, hunks_of(ls)) == hunks_of(ls),
{
    match hunks_of(ls) {
        Ok(hs) => {
            assert(done + hs =~= hs);
        },
        Err(_) => {},
    }
}

proof fn lemma_prefix_step(
    done: Seq<HunkView>,
    h: HunkView,
    rest: Result<Seq<HunkView>, Seq<char>>,
)
    ensures
        with_prefix(done.push(h), rest) == with_prefix(
            done,
            match rest {
                Err(e) => Err(e),
                Ok(hs) => Ok(seq![h] + hs),
            },
        ),
{
    match rest {
        Ok(hs) => {
            assert(done.push(h) + hs =~= done + (seq![h] + hs));
        },
        Err(_) => {},
    }
}

// ---------------------------------------------------------------------------
// Applying
// ---------------------------------------------------------------------------

/// Whether the expected lines stand in the text at a position.
fn try_hunk_at(lines: &Vec<String>, start: usize, ctx_lines: &Vec<String>) -> (r: bool)
    ensures
        r == matches_at(texts(lines@), start as int, texts(ctx_lines@)),
{
    if start > lines.len() || ctx_lines.len() > lines.len() - start {
        return false;
    }
    let n: usize = lines.len();
    let ghost ls = texts(lines@);
    let ghost ctx = texts(ctx_lines@);
    let mut i: usize = 0;
    while i < ctx_lines.len()
        invariant
            ls == texts(lines@),
            ctx == texts(ctx_lines@),
            n == lines@.len(),
            start + ctx_lines@.len() <= n,
            i <= ctx_lines@.len(),
            forall|j: int| 0 <= j < i ==> trim_newlines(ls[start + j]) == #[trigger] ctx[j],
        decreases ctx_lines@.len() - i,
    {
        let l = without_newlines(&lines[start + i]);
        assert(ls[start + i] == lines@[start + i]@);
        assert(ctx[i as int] == ctx_lines@[i as int]@);
        if l != ctx_lines[i] {
            return false;
        }
        i += 1;
    }
    true
}

/// The text being patched, and the first of its lines that is still free.
struct HunkSearch<'a> {
    lines: &'a Vec<String>,
    min_pos: usize,
}

impl<'a> HunkSearch<'a> {
    /// Looks for a fitting position within 99 lines of `center`, nearest first.
    fn search_nearby(&self, center: usize, ctx_lines: &Vec<String>) -> (r: Option<usize>)
        ensures
            nearest(
                texts(self.lines@),
                self.min_pos as int,
                texts(ctx_lines@),
                center as int,
                1,
            ) == (match r {
                Some(p) => Some(p as int),
                None => None::<int>,
            }),
    {
        let n: usize = self.lines.len();
        let ghost ls = texts(self.lines@);
        let ghost ctx = texts(ctx_lines@);
        let mut delta: usize = 1;
        while delta < 100
            invariant
                n == self.lines@.len(),
                ls == texts(self.lines@),
                ctx == texts(ctx_lines@),
                1 <= delta <= 100,
                nearest(ls, self.min_pos as int, ctx, center as int, 1) == nearest(
                    ls,
                    self.min_pos as int,
                    ctx,
                    center as int,
                    delta as int,
                ),
            decreases 100 - delta,
        {
            if center <= n && delta <= n - center {
                let c: usize = center + delta;
                if c >= self.min_pos && try_hunk_at(self.lines, c, ctx_lines) {
                    return Some(c);
                }
            }
            if delta <= center {
                let c: usize = center - delta;
                if c >= self.min_pos && try_hunk_at(self.lines, c, ctx_lines) {
                    return Some(c);
                }
            }
            delta += 1;
        }
        None
    }
}

/// Finds the position a hunk is applied at.
fn find_hunk_position(
    ctx: &HunkSearch<'_>,
    hunk_start: usize,
    ctx_lines: &Vec<String>,
) -> (r: Result<usize, SkillfileError>)
    requires
        hunk_start < usize::MAX,
    ensures
        match position(
            texts(ctx.lines@),
            ctx.min_pos as int,
            texts(ctx_lines@),
            hunk_start as int,
        ) {
            Some(p) => r matches Ok(q) && q as int == p,
            None => r matches Err(SkillfileError::Manifest(m)) && m@ == mismatch_text(
                texts(ctx_lines@),
                hunk_start as int,
            ),
        },
{
    if hunk_start >= ctx.min_pos && try_hunk_at(ctx.lines, hunk_start, ctx_lines) {
        return Ok(hunk_start);
    }
    if let Some(pos) = ctx.search_nearby(hunk_start, ctx_lines) {
        return Ok(pos);
    }
    if ctx_lines.len() > 0 {
        let mut m: String = String::from_str("context mismatch: cannot find context starting with ");
        let q = quoted(&ctx_lines[0]);
        m.append(&q);
        m.append(" near line ");
        let k = size_number(hunk_start + 1);
        m.append(&k);
        assert(texts(ctx_lines@)[0] == ctx_lines@[0]@);
        return Err(SkillfileError::Manifest(m));
    }
    Err(SkillfileError::Manifest(String::from_str("patch extends beyond end of file")))
}

/// The lines of the old text that a hunk expects.
fn context_lines(body: &Vec<String>) -> (r: Vec<String>)
    ensures
        texts(r@) == context(texts(body@)),
{
    let ghost ls = texts(body@);
    let mut out: Vec<String> = Vec::new();
    let mut i: usize = 0;
    assert(texts(out@) =~= context(ls.take(0)));
    while i < body.len()
        invariant
            ls == texts(body@),
            i <= body@.len(),
            texts(out@) == context(ls.take(i as int)),
        decreases body@.len() - i,
    {
        let ghost before = texts(out@);
        assert(ls.take(i + 1).drop_last() =~= ls.take(i as int));
        assert(ls.take(i + 1).last() == body@[i as int]@);
        let v = to_chars(&body[i]);
        if v.len() > 0 && (v[0] == ' ' || v[0] == '-') {
            let rest = slice_string(&v, 1, v.len());
            assert(rest@ =~= body@[i as int]@.skip(1));
            let l = without_newlines(&rest);
            out.push(l);
            assert(texts(out@) =~= before.push(l@));
        }
        i += 1;
    }
    assert(ls.take(i as int) =~= ls);
    out
}

/// How far a patch has been applied to `lines`.
struct PatchState<'a> {
    lines: &'a Vec<String>,
    output: Vec<String>,
    pos: usize,
}

impl<'a> PatchState<'a> {
    spec fn progress(&self) -> Progress {
        Progress { output: texts(self.output@), pos: self.pos as int }
    }

    fn new(lines: &'a Vec<String>) -> (r: Self)
        ensures
            r.lines == lines,
            r.progress() == (Progress { output: Seq::empty(), pos: 0 }),
    {
        let r = PatchState { lines, output: Vec::new(), pos: 0 };
        assert(texts(r.output@) =~= Seq::empty());
        r
    }

    /// Copies the lines up to `to`.
    fn copy_until(&mut self, to: usize)
        requires
            old(self).pos <= to <= old(self).lines@.len(),
        ensures
            final(self).lines == old(self).lines,
            final(self).progress() == (Progress {
                output: old(self).progress().output + texts(old(self).lines@).subrange(
                    old(self).pos as int,
                    to as int,
                ),
                pos: to as int,
            }),
    {
        let ghost ls = texts(self.lines@);
        let ghost base = self.progress().output;
        let ghost from = self.pos;
        assert(base + ls.subrange(from as int, from as int) =~= base);
        while self.pos < to
            invariant
                ls == texts(self.lines@),
                self.lines == old(self).lines,
                from <= self.pos <= to <= self.lines@.len(),
                texts(self.output@) == base + ls.subrange(from as int, self.pos as int),
            decreases to - self.pos,
        {
            let ghost before = texts(self.output@);
            let l = self.lines[self.pos].clone();
            self.output.push(l);
            assert(texts(self.output@) =~= before.push(ls[self.pos as int]));
            assert(base + ls.subrange(from as int, self.pos + 1) =~= before.push(
                ls[self.pos as int],
            ));
            self.pos += 1;
        }
    }

    /// Applies one line of a hunk.
    fn apply_line(&mut self, hl: &str)
        requires
            hl@.len() > 0 && hl@[0] == '-' ==> old(self).pos < old(self).lines@.len(),
        ensures
            final(self).lines == old(self).lines,
            final(self).progress() == after_line(
                texts(old(self).lines@),
                old(self).progress(),
                hl@,
            ),
    {
        let v = to_chars(hl);
        if v.len() == 0 {
            return;
        }
        let ghost before = texts(self.output@);
        let n: usize = self.lines.len();
        if v[0] == ' ' {
            if self.pos < self.lines.len() {
                let l = self.lines[self.pos].clone();
                self.output.push(l);
                assert(texts(self.output@) =~= before.push(texts(self.lines@)[self.pos as int]));
                self.pos += 1;
            }
        } else if v[0] == '-' {
            self.pos += 1;
        } else if v[0] == '+' {
            let l = slice_string(&v, 1, v.len());
            assert(l@ =~= hl@.skip(1));
            self.output.push(l);
            assert(texts(self.output@) =~= before.push(hl@.skip(1)));
        }
    }

    /// Applies the lines of a hunk.
    fn apply_hunk(&mut self, hunk: &Hunk)
        requires
            old(self).pos + context(hunk@.body).len() <= old(self).lines@.len(),
        ensures
            final(self).lines == old(self).lines,
            final(self).pos <= final(self).lines@.len(),
            final(self).progress() == after_body(
                texts(old(self).lines@),
                old(self).progress(),
                hunk@.body,
            ),
    {
        let ghost ls = texts(self.lines@);
        let ghost body = hunk@.body;
        let ghost st = self.progress();
        let n: usize = self.lines.len();
        let mut i: usize = 0;
        while i < hunk.body.len()
            invariant
                n == self.lines@.len(),
                ls == texts(self.lines@),
                self.lines == old(self).lines,
                body == hunk@.body,
                st.pos + context(body).len() <= n,
                0 <= st.pos,
                i <= hunk.body@.len(),
                self.progress() == after_body(ls, st, body.take(i as int)),
            decreases hunk.body@.len() - i,
        {
            proof {
                lemma_body_pos(ls, st, body, i as int);
                lemma_context_take(body, i as int, i + 1);
                lemma_context_take(body, i + 1, body.len() as int);
                assert(body.take(body.len() as int) =~= body);
                assert(body.take(i + 1).drop_last() =~= body.take(i as int));
                assert(body.take(i + 1).last() == hunk.body@[i as int]@);
            }
            self.apply_line(&hunk.body[i]);
            i += 1;
        }
        proof {
            assert(body.take(i as int) =~= body);
            lemma_body_pos(ls, st, body, i as int);
        }
    }
}

/// Fewer lines of a hunk expect no more lines of the old text.
proof fn lemma_context_take(body: Seq<Seq<char>>, i: int, j: int)
    requires
        0 <= i <= j <= body.len(),
    ensures
        context(body.take(i)).len() <= context(body.take(j)).len(),
    decreases j - i,
{
    if i < j {
        lemma_context_take(body, i, j - 1);
        assert(body.take(j).drop_last() =~= body.take(j - 1));
    }
}

/// The lines of a hunk advance through the old text by no more lines than they expect.
proof fn lemma_body_pos(ls: Seq<Seq<char>>, st: Progress, body: Seq<Seq<char>>, i: int)
    requires
        0 <= i <= body.len(),
        0 <= st.pos,
    ensures
        st.pos <= after_body(ls, st, body.take(i)).pos <= st.pos + context(body.take(i)).len(),
    decreases i,
{
    if i > 0 {
        lemma_body_pos(ls, st, body, i - 1);
        assert(body.take(i).drop_last() =~= body.take(i - 1));
    }
}

/// The nearest position fits.
proof fn lemma_nearest_fits(
    ls: Seq<Seq<char>>,
    min_pos: int,
    ctx: Seq<Seq<char>>,
    center: int,
    delta: int,
)
    ensures
        nearest(ls, min_pos, ctx, center, delta) matches Some(p) ==> fits(ls, min_pos, ctx, p),
    decreases 100 - delta,
{
    if delta < 100 {
        lemma_nearest_fits(ls, min_pos, ctx, center, delta + 1);
    }
}

/// Applies a unified diff to a text.
///
/// An empty patch leaves the text as it is. Each hunk is applied where its header says, or at the
/// nearest place within 99 lines where the lines it expects stand; never before the end of the
/// hunk that precedes it. A patch that does not apply cleanly is an error.
pub fn apply_patch_pure(original: &str, patch_text: &str) -> (r: Result<String, SkillfileError>)
    ensures
        match patched(original@, patch_text@) {
            Ok(t) => r matches Ok(s) && s@ == t,
            Err(e) => r matches Err(SkillfileError::Manifest(m)) && m@ == e,
        },
{
    if patch_text.is_empty() {
        return Ok(original.to_owned());
    }
    let lines = lines_inclusive(original);
    let ghost ls = texts(lines@);
    let hunks = parse_hunks(patch_text)?;
    let ghost hs = hunk_views(hunks@);
    let mut state = PatchState::new(&lines);
    let mut i: usize = 0;
    while i < hunks.len()
        invariant
            ls == texts(lines@),
            ls == split_inclusive(original@),
            patch_text@.len() > 0,
            parsed_hunks(patch_text@) == Ok::<Seq<HunkView>, Seq<char>>(hs),
            hs == hunk_views(hunks@),
            in_range(hunks@),
            state.lines == &lines,
            state.pos <= lines@.len(),
            i <= hunks@.len(),
            after_hunks(ls, hs.take(i as int)) == Ok::<Progress, Seq<char>>(state.progress()),
        decreases hunks@.len() - i,
    {
        let hunk = &hunks[i];
        let ctx_lines = context_lines(&hunk.body);
        let start: usize = hunk.start;
        let search = HunkSearch { lines: &lines, min_pos: state.pos };
        proof {
            assert(hs.take(i + 1).drop_last() =~= hs.take(i as int));
            assert(hs.take(i + 1).last() == hunk@);
            lemma_nearest_fits(ls, state.pos as int, texts(ctx_lines@), start as int, 1);
        }
        match find_hunk_position(&search, start, &ctx_lines) {
            Err(e) => {
                proof {
                    lemma_after_hunks_error(ls, hs, i as int + 1);
                }
                return Err(e);
            },
            Ok(p) => {
                state.copy_until(p);
                state.apply_hunk(hunk);
            },
        }
        i += 1;
    }
    assert(hs.take(i as int) =~= hs);
    let n: usize = lines.len();
    let ghost st = state.progress();
    state.copy_until(n);
    assert(ls.subrange(st.pos, n as int) =~= ls.skip(st.pos));
    Ok(concat_all(&state.output))
}

/// An error among the first hunks is the error of them all.
proof fn lemma_after_hunks_error(ls: Seq<Seq<char>>, hs: Seq<HunkView>, i: int)
    requires
        0 <= i <= hs.len(),
        after_hunks(ls, hs.take(i)) is Err,
    ensures
        after_hunks(ls, hs) == after_hunks(ls, hs.take(i)),
    decreases hs.len() - i,
{
    if i < hs.len() {
        assert(hs.take(i + 1).drop_last() =~= hs.take(i));
        lemma_after_hunks_error(ls, hs, i + 1);
    } else {
        assert(hs.take(i) =~= hs);
    }
}

/// An empty patch leaves a text as it is.
pub proof fn law_empty_patch_is_identity(original: Seq<char>)
    ensures
        patched(original, Seq::empty()) == Ok::<Seq<char>, Seq<char>>(original),
{
}

} // verus!
