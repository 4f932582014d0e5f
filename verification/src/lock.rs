//! The lock file: what each entry was resolved to.

use vstd::prelude::*;
use crate::models::{Entry, EntryView};

verus! {

/// The name of the lock file.
pub const LOCK_NAME: &'static str = "Skillfile.lock";

/// The key of an entry in the lock file: `source/type/name`.
pub fn lock_key(entry: &Entry) -> (r: String)
    ensures
        r@ == entry@.key(),
{
    entry.to_string()
}

/// Entries share a lock key only when they have the same kind of source, the same type and the
/// same name.
pub proof fn law_lock_keys_differ(a: EntryView, b: EntryView)
    ensures
        a.key() == b.key() <==> a.source.word() == b.source.word() && a.entity_type
            == b.entity_type && a.name == b.name,
{
    reveal_strlit("github");
    reveal_strlit("local");
    reveal_strlit("url");
    reveal_strlit("skill");
    reveal_strlit("agent");
    reveal_strlit("/");
    if a.key() == b.key() {
        let k = a.key();
        let p = a.source.word().len() as int;
        let q = b.source.word().len() as int;
        assert(k[p] == '/');
        assert(b.key()[q] == '/');
        assert(a.source.word() =~= k.take(p));
        assert(b.source.word() =~= k.take(q));
        if p < q {
            assert(b.source.word()[p] == '/');
        }
        if q < p {
            assert(a.source.word()[q] == '/');
        }
        assert(a.entity_type.word() =~= k.subrange(p + 1, p + 6));
        assert(b.entity_type.word() =~= k.subrange(p + 1, p + 6));
        crate::models::law_entity_type_words(a.entity_type, b.entity_type, a.name);
        assert(a.name =~= k.skip(p + 7));
        assert(b.name =~= k.skip(p + 7));
    }
}

/// The key of an entry in the lock file is made of the kind of its source, its type and its name.
pub proof fn law_lock_key_parts(e: EntryView)
    ensures
        e.source is Github && e.entity_type is Skill ==> e.key() == "github/skill/"@ + e.name,
        e.source is Github && e.entity_type is Agent ==> e.key() == "github/agent/"@ + e.name,
        e.source is Local && e.entity_type is Skill ==> e.key() == "local/skill/"@ + e.name,
        e.source is Local && e.entity_type is Agent ==> e.key() == "local/agent/"@ + e.name,
        e.source is Url && e.entity_type is Skill ==> e.key() == "url/skill/"@ + e.name,
        e.source is Url && e.entity_type is Agent ==> e.key() == "url/agent/"@ + e.name,
{
    reveal_strlit("github");
    reveal_strlit("local");
    reveal_strlit("url");
    reveal_strlit("skill");
    reveal_strlit("agent");
    reveal_strlit("/");
    reveal_strlit("github/skill/");
    reveal_strlit("github/agent/");
    reveal_strlit("local/skill/");
    reveal_strlit("local/agent/");
    reveal_strlit("url/skill/");
    reveal_strlit("url/agent/");
    let k = e.key();
    if e.source is Github && e.entity_type is Skill {
        assert(k =~= "github/skill/"@ + e.name);
    } else if e.source is Github {
        assert(k =~= "github/agent/"@ + e.name);
    } else if e.source is Local && e.entity_type is Skill {
        assert(k =~= "local/skill/"@ + e.name);
    } else if e.source is Local {
        assert(k =~= "local/agent/"@ + e.name);
    } else if e.entity_type is Skill {
        assert(k =~= "url/skill/"@ + e.name);
    } else {
        assert(k =~= "url/agent/"@ + e.name);
    }
}

} // verus!
