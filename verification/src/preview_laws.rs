//! What a preview shows of a file.

use vstd::prelude::*;
use crate::commands::skill_preview::{
    content_lines, excerpt, field_line, front_fields, front_matter, markdown_line, preview_of,
    risk_mark, with_field, PreviewView, PREVIEW_HR,
};
use crate::commands::styled::{bold_colored, bold_style, colored, no_style, raw, styled, Color};
use crate::lines::lines;
use crate::text::{
    ascii_lower, byte_len, first_at, has_text, join, lemma_byte_len_skip, lemma_trim_start_is_end,
    lemma_until_char, lemma_until_char_is, lowercase, occurs_at, starts_with, trim_both, trim_start,
    until_char,
};

verus! {

// ---------------------------------------------------------------------------
// The front matter
// ---------------------------------------------------------------------------

proof fn lemma_first_at(s: Seq<char>, p: Seq<char>, n: int)
    requires
        occurs_at(s, p, n),
        forall|j: int| j < n ==> !#[trigger] occurs_at(s, p, j),
    ensures
        first_at(s, p) == Some(n),
{
    reveal(first_at);
    let i = choose|i: int| #[trigger]
        occurs_at(s, p, i) && forall|j: int| j < i ==> !#[trigger] occurs_at(s, p, j);
    assert(i == n);
}

/// The front matter of a file is what stands between a `---` at its start and the first line behind
/// it that starts with `---`. The rest of the file follows it.
pub proof fn law_front_matter(content: Seq<char>, front: Seq<char>, rest: Seq<char>)
    requires
        trim_start(content) == "---"@ + front + "\n---"@ + rest,
        !has_text(front, "\n---"@),
    ensures
        front_matter(content) == Some((front, rest)),
{
    let end = "\n---"@;
    let t = trim_start(content);
    let a = t.skip(3);
    reveal_strlit("---");
    reveal_strlit("\n---");
    assert(t.subrange(0, 3) =~= "---"@);
    assert(a =~= front + end + rest);
    let n = front.len() as int;
    assert(a.subrange(n, n + 4) =~= end);
    assert(occurs_at(a, end, n));
    assert forall|j: int| j < n implies !#[trigger] occurs_at(a, end, j) by {
        if occurs_at(a, end, j) {
            assert forall|k: int| 0 <= k < 4 implies a[j + k] == end[k] by {
                assert(a.subrange(j, j + 4)[k] == end[k]);
            }
            if j + 4 <= n {
                assert(front.subrange(j, j + 4) =~= end);
                assert(occurs_at(front, end, j));
            } else {
                assert(a[n] == '\n');
                assert(a[j + (n - j)] == end[n - j]);
            }
        }
    }
    lemma_first_at(a, end, n);
    assert(a.take(n) =~= front);
    assert(a.skip(n + 4) =~= rest);
}

/// A file has a front matter only where it starts with `---` and a later line does, too.
pub proof fn law_no_front_matter(content: Seq<char>)
    ensures
        front_matter(content) is Some <==> starts_with(trim_start(content), "---"@) && has_text(
            trim_start(content).skip(3),
            "\n---"@,
        ),
        front_matter(content) is None ==> (preview_of(content) == PreviewView {
            name: None,
            description: None,
            risk: None,
            source: None,
            body_excerpt: excerpt(trim_start(content)),
        }),
{
    reveal(first_at);
}

/// Whether a line of a front matter sets a key, whatever the case of the key and the white space
/// round it.
pub open spec fn sets(line: Seq<char>, key: Seq<char>) -> bool {
    exists|k: Seq<char>, v: Seq<char>| #[trigger]
        (k.push(':') + v) == line && !k.contains(':') && lowercase(trim_both(k)) == key
}

/// The keys that a preview knows.
pub open spec fn known_key(key: Seq<char>) -> bool {
    key == "name"@ || key == "description"@ || key == "risk"@ || key == "source"@
}

/// What a preview holds under a key.
pub open spec fn held(c: PreviewView, key: Seq<char>) -> Option<Seq<char>> {
    if key == "name"@ {
        c.name
    } else if key == "description"@ {
        c.description
    } else if key == "risk"@ {
        c.risk
    } else {
        c.source
    }
}

proof fn lemma_keys()
    ensures
        "name"@ != "description"@,
        "name"@ != "risk"@,
        "name"@ != "source"@,
        "description"@ != "risk"@,
        "description"@ != "source"@,
        "risk"@ != "source"@,
{
    reveal_strlit("name");
    reveal_strlit("description");
    reveal_strlit("risk");
    reveal_strlit("source");
    assert("name"@[0] == 'n' && "description"@[0] == 'd' && "risk"@[0] == 'r' && "source"@[0]
        == 's');
}

proof fn lemma_line_of_key(c: PreviewView, k: Seq<char>, v: Seq<char>, key: Seq<char>)
    requires
        !k.contains(':'),
        lowercase(trim_both(k)) == key,
        known_key(key),
    ensures
        held(with_field(c, k.push(':') + v), key) == Some(trim_both(v)),
{
    let line = k.push(':') + v;
    let n = k.len() as int;
    assert forall|j: int| 0 <= j < n implies line[j] != ':' by {
        assert(k.contains(k[j]));
    }
    lemma_until_char_is(line, ':', n);
    assert(line.take(n) =~= k);
    assert(line.skip(n + 1) =~= v);
    lemma_keys();
}

proof fn lemma_other_line(c: PreviewView, line: Seq<char>, key: Seq<char>)
    requires
        !sets(line, key),
        known_key(key),
    ensures
        held(with_field(c, line), key) == held(c, key),
{
    lemma_keys();
    lemma_until_char(line, ':');
    let n = until_char(line, ':') as int;
    if n < line.len() {
        let k = line.take(n);
        let v = line.skip(n + 1);
        assert(k.push(':') + v =~= line);
        assert forall|j: int| 0 <= j < k.len() implies k[j] != ':' by {
            assert(line[j] != ':');
        }
        assert(lowercase(trim_both(k)) != key);
    }
}

/// A line `key: value` of the front matter sets what is shown under the key, without white space
/// round the value, unless a later line sets it again.
pub proof fn law_last_line_of_a_key_counts(
    before: Seq<Seq<char>>,
    k: Seq<char>,
    v: Seq<char>,
    behind: Seq<Seq<char>>,
    key: Seq<char>,
)
    requires
        !k.contains(':'),
        lowercase(trim_both(k)) == key,
        known_key(key),
        forall|i: int| 0 <= i < behind.len() ==> !sets(#[trigger] behind[i], key),
    ensures
        held(front_fields(before.push(k.push(':') + v) + behind), key) == Some(trim_both(v)),
    decreases behind.len(),
{
    let line = k.push(':') + v;
    let ls = before.push(line) + behind;
    if behind.len() == 0 {
        assert(ls =~= before.push(line));
        assert(ls.drop_last() =~= before);
        lemma_line_of_key(front_fields(before), k, v, key);
    } else {
        let init = behind.drop_last();
        assert forall|i: int| 0 <= i < init.len() implies !sets(#[trigger] init[i], key) by {
            assert(init[i] == behind[i]);
        }
        law_last_line_of_a_key_counts(before, k, v, init, key);
        assert(ls.drop_last() =~= before.push(line) + init);
        assert(ls.last() == behind[behind.len() - 1]);
        lemma_other_line(front_fields(before.push(line) + init), ls.last(), key);
    }
}

/// Nothing is shown under a key that no line of the front matter sets.
pub proof fn law_unset_key(ls: Seq<Seq<char>>, key: Seq<char>)
    requires
        known_key(key),
        forall|i: int| 0 <= i < ls.len() ==> !sets(#[trigger] ls[i], key),
    ensures
        held(front_fields(ls), key) is None,
    decreases ls.len(),
{
    if ls.len() > 0 {
        let init = ls.drop_last();
        assert forall|i: int| 0 <= i < init.len() implies !sets(#[trigger] init[i], key) by {
            assert(init[i] == ls[i]);
        }
        assert(!sets(ls[ls.len() - 1], key));
        law_unset_key(init, key);
        lemma_other_line(front_fields(init), ls.last(), key);
    }
}

/// A preview shows under each key what the lines of the front matter say, and of what follows the
/// front matter how it begins.
pub proof fn law_preview(
    content: Seq<char>,
    front: Seq<char>,
    rest: Seq<char>,
    key: Seq<char>,
)
    requires
        trim_start(content) == "---"@ + front + "\n---"@ + rest,
        !has_text(front, "\n---"@),
        known_key(key),
    ensures
        held(preview_of(content), key) == held(front_fields(lines(front)), key),
        preview_of(content).body_excerpt == excerpt(rest),
{
    law_front_matter(content, front, rest);
}

/// What is shown of a body is its first lines, twenty at most, from the first that is not blank.
pub proof fn law_excerpt(body: Seq<char>)
    ensures
        excerpt(body) is None <==> trim_start(body).len() == 0,
        excerpt(body) matches Some(t) ==> exists|n: int|
            0 <= n <= 20 && n <= lines(trim_start(body)).len() && (n == 20 || n == lines(
                trim_start(body),
            ).len()) && t == join(#[trigger] lines(trim_start(body)).take(n), "\n"@),
{
    let ls = lines(trim_start(body));
    if ls.len() < 20 {
        assert(ls.take(ls.len() as int) =~= ls);
    } else {
        assert(ls.take(20) == ls.take(20));
    }
}

// ---------------------------------------------------------------------------
// How it is shown
// ---------------------------------------------------------------------------

/// A heading is shown without its marks and in bold, one of the first level in a color of its own.
pub proof fn law_headings(line: Seq<char>, text: Seq<char>)
    ensures
        trim_start(line) == "# "@ + text ==> markdown_line(line) == seq![
            styled(text, bold_colored(Color::Cyan)),
        ],
        trim_start(line) == "## "@ + text || trim_start(line) == "### "@ + text || trim_start(line)
            == "#### "@ + text ==> markdown_line(line) == seq![
            styled(text, bold_colored(Color::Blue)),
        ],
{
    let t = trim_start(line);
    reveal_strlit("# ");
    reveal_strlit("## ");
    reveal_strlit("### ");
    reveal_strlit("#### ");
    if t == "# "@ + text {
        lemma_starts(t, "# "@, text);
        lemma_not_start(t, "## "@, 1);
        lemma_not_start(t, "### "@, 1);
        lemma_not_start(t, "#### "@, 1);
    } else if t == "## "@ + text {
        lemma_starts(t, "## "@, text);
        lemma_not_start(t, "### "@, 2);
        lemma_not_start(t, "#### "@, 2);
    } else if t == "### "@ + text {
        lemma_starts(t, "### "@, text);
        lemma_not_start(t, "#### "@, 3);
    } else if t == "#### "@ + text {
        lemma_starts(t, "#### "@, text);
    }
}

proof fn lemma_starts(t: Seq<char>, p: Seq<char>, text: Seq<char>)
    requires
        t == p + text,
    ensures
        starts_with(t, p),
        t.skip(p.len() as int) == text,
{
    assert(t.subrange(0, p.len() as int) =~= p);
    assert(t.skip(p.len() as int) =~= text);
}

proof fn lemma_not_start(t: Seq<char>, p: Seq<char>, k: int)
    requires
        0 <= k < p.len(),
        k < t.len() ==> t[k] != p[k],
    ensures
        !starts_with(t, p),
{
    if starts_with(t, p) {
        assert(t.subrange(0, p.len() as int)[k] == p[k]);
    }
}

/// A line that is not marked in any of these ways is shown as it is.
pub proof fn law_plain_lines(line: Seq<char>)
    requires
        !starts_with(trim_start(line), "# "@),
        !starts_with(trim_start(line), "## "@),
        !starts_with(trim_start(line), "### "@),
        !starts_with(trim_start(line), "#### "@),
        !starts_with(trim_start(line), "- "@),
        !starts_with(trim_start(line), "* "@),
        !starts_with(trim_start(line), "```"@),
        trim_start(line) != "---"@,
    ensures
        markdown_line(line) == seq![raw(line)],
{
}

/// An item of a list is shown with a bullet in place of its mark, as far in as it stands.
pub proof fn law_list_items(line: Seq<char>, text: Seq<char>)
    requires
        trim_start(line) == "- "@ + text || trim_start(line) == "* "@ + text,
    ensures
        markdown_line(line).len() == 3,
        markdown_line(line)[0].content.len() == byte_len(line) - byte_len(trim_start(line)),
        markdown_line(line)[1].content == "  \u{2022} "@,
        markdown_line(line)[2] == raw(text),
{
    let t = trim_start(line);
    reveal_strlit("# ");
    reveal_strlit("## ");
    reveal_strlit("### ");
    reveal_strlit("#### ");
    reveal_strlit("- ");
    reveal_strlit("* ");
    lemma_not_start(t, "# "@, 0);
    lemma_not_start(t, "## "@, 0);
    lemma_not_start(t, "### "@, 0);
    lemma_not_start(t, "#### "@, 0);
    if t == "- "@ + text {
        lemma_starts(t, "- "@, text);
    } else {
        lemma_starts(t, "* "@, text);
    }
    lemma_trim_start_is_end(line);
    let k = line.len() - t.len();
    lemma_byte_len_skip(line, k);
}

/// The fence of a block of code is shown as it is, dimmed, and a line of three dashes as a rule.
pub proof fn law_fences_and_rules(line: Seq<char>, text: Seq<char>)
    ensures
        trim_start(line) == "```"@ + text ==> markdown_line(line) == seq![
            styled(line, colored(Color::DarkGray)),
        ],
        trim_start(line) == "---"@ ==> markdown_line(line) == seq![
            styled(PREVIEW_HR@, colored(Color::DarkGray)),
        ],
{
    let t = trim_start(line);
    reveal_strlit("# ");
    reveal_strlit("## ");
    reveal_strlit("### ");
    reveal_strlit("#### ");
    reveal_strlit("- ");
    reveal_strlit("* ");
    reveal_strlit("```");
    reveal_strlit("---");
    if t == "```"@ + text || t == "---"@ {
        lemma_not_start(t, "# "@, 0);
        lemma_not_start(t, "## "@, 0);
        lemma_not_start(t, "### "@, 0);
        lemma_not_start(t, "#### "@, 0);
        lemma_not_start(t, "- "@, 1);
        lemma_not_start(t, "* "@, 0);
        if t == "```"@ + text {
            lemma_starts(t, "```"@, text);
        } else {
            lemma_not_start(t, "```"@, 0);
        }
    }
}

/// One line where there is something.
pub open spec fn line_if<A>(o: Option<A>) -> int {
    if o is Some {
        1
    } else {
        0
    }
}

/// A preview shows each field that is there, in a fixed order and under its own label, then the body,
/// and nothing of what is missing. A preview without a name, a description and a body says so.
pub proof fn law_fields_are_shown(c: PreviewView)
    ensures
        ({
            let ls = content_lines(c);
            let d = line_if(c.name);
            let r = d + line_if(c.description);
            let s = r + line_if(c.risk);
            let b = s + line_if(c.source);
            let bare = c.name is None && c.description is None && c.body_excerpt is None;
            &&& c.name is Some ==> ls[0] == field_line(
                "Name:        "@,
                c.name->Some_0,
                bold_style(),
            )
            &&& c.description is Some ==> ls[d] == field_line(
                "Description: "@,
                c.description->Some_0,
                no_style(),
            )
            &&& c.risk is Some ==> ls[r] == field_line(
                "Risk:        "@,
                risk_mark(c.risk->Some_0).0 + " "@ + c.risk->Some_0,
                bold_colored(risk_mark(c.risk->Some_0).1),
            )
            &&& c.source is Some ==> ls[s] == field_line(
                "Source:      "@,
                c.source->Some_0,
                colored(Color::Magenta),
            )
            &&& c.body_excerpt is None ==> ls.len() == b + (if bare {
                1int
            } else {
                0
            })
            &&& bare ==> ls.last()[0].content == "No metadata available."@
        }),
{
}

/// The body of a preview is shown line by line, below a rule.
pub proof fn law_body_is_shown(c: PreviewView, i: int)
    requires
        c.body_excerpt is Some,
        0 <= i < lines(c.body_excerpt->Some_0).len(),
    ensures
        ({
            let ls = content_lines(c);
            let n = lines(c.body_excerpt->Some_0).len();
            let b = ls.len() - n;
            &&& b == 3 + line_if(c.name) + line_if(c.description) + line_if(c.risk) + line_if(
                c.source,
            )
            &&& ls[b + i] == markdown_line(lines(c.body_excerpt->Some_0)[i])
            &&& ls[b - 2] == seq![styled(PREVIEW_HR@, colored(Color::DarkGray))]
        }),
{
}

/// A risk in ASCII characters is marked by its word, whatever the case.
pub proof fn law_risk_marks(risk: Seq<char>)
    requires
        lowercase(risk) == ascii_lower(risk),
    ensures
        risk_mark(risk).1 is Green <==> ascii_lower(risk) == "low"@,
        risk_mark(risk).1 is Yellow <==> ascii_lower(risk) == "medium"@,
        risk_mark(risk).1 is Red <==> ascii_lower(risk) == "high"@,
{
    reveal_strlit("low");
    reveal_strlit("medium");
    reveal_strlit("high");
    assert("low"@[0] == 'l' && "medium"@[0] == 'm' && "high"@[0] == 'h');
}

} // verus!
