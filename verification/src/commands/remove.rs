//! Removing an entry from a manifest.

use vstd::prelude::*;
use vstd::string::StringExecFns;
use crate::commands::common::{missing_manifest, missing_manifest_text, push_text};
use crate::error::SkillfileError;
use crate::lines::{lines, plain_lines};
use crate::lock::lock_key;
use crate::models::{Entry, EntryView};
use crate::parser::{
    entry_of_line, find_entry_in, has_name, manifest_of, parse_manifest_line, parse_manifest_str,
    strip_bom, text_without_bom, MANIFEST_NAME,
};
use crate::text::{join, join_all, same, texts, to_chars, trim_both, trimmed};

verus! {

/// Whether a line declares an entry of a name.
pub open spec fn declares(line: Seq<char>, name: Seq<char>) -> bool {
    let s = trim_both(line);
    s.len() > 0 && s[0] != '#' && (entry_of_line(s) matches Some(e) && e.name == name)
}

/// Lines without the first that declares an entry of a name.
pub open spec fn without_first(ls: Seq<Seq<char>>, name: Seq<char>) -> Seq<Seq<char>>
    decreases ls.len(),
{
    if ls.len() == 0 {
        ls
    } else if declares(ls[0], name) {
        ls.skip(1)
    } else {
        seq![ls[0]] + without_first(ls.skip(1), name)
    }
}

/// A text without the line of an entry; a line feed at its end stays.
pub open spec fn without_line(text: Seq<char>, name: Seq<char>) -> Seq<char> {
    let out = join(without_first(lines(text), name), "\n"@);
    if text.len() > 0 && text.last() == '\n' {
        out.push('\n')
    } else {
        out
    }
}

/// A manifest text without the line of an entry; a byte order mark at its start stays.
pub open spec fn without_entry(raw: Seq<char>, name: Seq<char>) -> Seq<char> {
    if text_without_bom(raw) == raw {
        without_line(raw, name)
    } else {
        seq!['\u{feff}'] + without_line(text_without_bom(raw), name)
    }
}

/// The name of the entry that a line declares.
fn name_from_line(line: &str) -> (r: Option<String>)
    ensures
        match entry_of_line(line@) {
            Some(e) => r matches Some(n) && n@ == e.name,
            None => r is None,
        },
{
    match parse_manifest_line(line) {
        Some(e) => Some(e.name),
        None => None,
    }
}

fn line_declares(line: &str, name: &str) -> (r: bool)
    ensures
        r == declares(line@, name@),
{
    let s = trimmed(line);
    let v = to_chars(&s);
    if v.len() == 0 || v[0] == '#' {
        return false;
    }
    match name_from_line(&s) {
        Some(n) => same(&n, name),
        None => false,
    }
}

/// Takes the line of an entry out of a manifest text.
pub fn remove_line(raw: &str, name: &str) -> (r: String)
    ensures
        r@ == without_entry(raw@, name@),
{
    let v = to_chars(raw);
    let text = strip_bom(raw);
    let rest = take_line(&text, name);
    if v.len() > 0 && v[0] == '\u{feff}' {
        assert(text_without_bom(raw@).len() == raw@.len() - 1);
        let mut out: String = String::new();
        out.push('\u{feff}');
        out.append(&rest);
        assert(out@ =~= seq!['\u{feff}'] + rest@);
        out
    } else {
        rest
    }
}

fn take_line(raw: &str, name: &str) -> (r: String)
    ensures
        r@ == without_line(raw@, name@),
{
    let all = plain_lines(raw);
    let ghost ls = texts(all@);
    let mut out: Vec<String> = Vec::new();
    let mut removed: bool = false;
    let mut i: usize = 0;
    assert(ls.skip(0) =~= ls);
    assert(texts(out@) + without_first(ls, name@) =~= without_first(ls, name@));
    while i < all.len()
        invariant
            ls == texts(all@),
            i <= all@.len(),
            !removed ==> texts(out@) + without_first(ls.skip(i as int), name@) == without_first(
                ls,
                name@,
            ),
            removed ==> texts(out@) + ls.skip(i as int) == without_first(ls, name@),
        decreases all@.len() - i,
    {
        let ghost rest = ls.skip(i as int);
        let ghost before = texts(out@);
        assert(rest[0] == all@[i as int]@);
        assert(rest.skip(1) =~= ls.skip(i + 1));
        if !removed && line_declares(&all[i], name) {
            removed = true;
        } else {
            push_text(&mut out, &all[i]);
            if removed {
                assert(texts(out@) + ls.skip(i + 1) =~= before + rest);
            } else {
                assert(texts(out@) + without_first(ls.skip(i + 1), name@) =~= before
                    + without_first(rest, name@));
            }
        }
        i += 1;
    }
    assert(ls.skip(i as int) =~= Seq::empty());
    assert(texts(out@) =~= without_first(ls, name@));
    let mut text = join_all(&out, "\n");
    let v = to_chars(raw);
    if v.len() > 0 && v[v.len() - 1] == '\n' {
        text.push('\n');
    }
    text
}

/// What removing an entry does: the new text of the manifest, the entry that goes, its key in the
/// lock file, and what to tell the user.
pub struct RemovePlan {
    pub manifest_text: String,
    pub entry: Entry,
    pub lock_key: String,
    pub message: String,
}

/// Works out what removing an entry does to a manifest, whose text is given where it exists.
pub fn cmd_remove(name: &str, repo_root: &str, manifest: Option<&str>) -> (r: Result<
    RemovePlan,
    SkillfileError,
>)
    ensures
        match manifest {
            None => r matches Err(SkillfileError::Manifest(m)) && m@ == missing_manifest_text(
                repo_root@,
            ),
            Some(raw) => {
                let es = manifest_of(text_without_bom(raw@)).entries;
                if has_name(es, name@) {
                    r matches Ok(p) && p.manifest_text@ == without_entry(raw@, name@)
                        && p.entry@ == first_named(es, name@) && p.lock_key@ == p.entry@.key()
                        && p.message@ == "Removed: "@ + name@
                } else {
                    r matches Err(SkillfileError::Manifest(m)) && m@ == "no entry named '"@ + name@
                        + "' in "@ + MANIFEST_NAME@
                }
            },
        },
{
    let raw = match manifest {
        None => {
            return Err(missing_manifest(repo_root));
        },
        Some(t) => t,
    };
    let result = parse_manifest_str(raw);
    let ghost es = result@.entries;
    let entry = match find_entry_in(name, &result.manifest) {
        Ok(e) => e.clone(),
        Err(e) => {
            return Err(e);
        },
    };
    proof {
        let i = choose|i: int|
            0 <= i < result.manifest.entries@.len() && entry@ == (
            #[trigger] result.manifest.entries@[i])@ && entry.name@ == name@ && forall|j: int|
                0 <= j < i ==> (#[trigger] result.manifest.entries@[j]).name@ != name@;
        assert(es[i] == entry@);
        assert forall|j: int| 0 <= j < i implies (#[trigger] es[j]).name != name@ by {
            assert(es[j] == result.manifest.entries@[j]@);
        }
        lemma_first_named(es, name@, i);
    }
    let manifest_text = remove_line(raw, name);
    let lock_key = lock_key(&entry);
    let mut message: String = String::from_str("Removed: ");
    message.append(name);
    Ok(RemovePlan { manifest_text, entry, lock_key, message })
}

/// The position of the first entry of a name.
pub open spec fn first_index(es: Seq<EntryView>, name: Seq<char>) -> int
    decreases es.len(),
{
    if es.len() == 0 || es[0].name == name {
        0
    } else {
        1 + first_index(es.skip(1), name)
    }
}

/// The first entry of a name.
pub open spec fn first_named(es: Seq<EntryView>, name: Seq<char>) -> EntryView {
    es[first_index(es, name)]
}

pub proof fn lemma_first_named(es: Seq<EntryView>, name: Seq<char>, i: int)
    requires
        0 <= i < es.len(),
        es[i].name == name,
        forall|j: int| 0 <= j < i ==> (#[trigger] es[j]).name != name,
    ensures
        first_index(es, name) == i,
    decreases i,
{
    if i > 0 {
        let rest = es.skip(1);
        assert(es[0].name != name);
        assert forall|j: int| 0 <= j < i - 1 implies (#[trigger] rest[j]).name != name by {
            assert(rest[j] == es[j + 1]);
        }
        lemma_first_named(rest, name, i - 1);
    }
}

} // verus!
