//! The built-in commands.

pub mod trim;
pub mod upper;
pub mod x;

use crate::command::{Group, Meta};
use crate::text::chars_of;
use vstd::prelude::*;

verus! {

/// The command that copies its input.
pub open spec fn spec_cat() -> Meta {
    Meta { name: "cat", group: Group::Transformers }
}

/// The command that copies its input.
pub fn cat() -> (meta: Meta)
    ensures
        meta == spec_cat(),
{
    Meta { name: "cat", group: Group::Transformers }
}

/// The built-in commands, in the order of their names.
pub open spec fn registry() -> Seq<Meta> {
    seq![
        Meta { name: "ascii", group: Group::Mappers },
        Meta { name: "cat", group: Group::Transformers },
        Meta { name: "first", group: Group::Transformers },
        Meta { name: "loop", group: Group::Transformers },
        Meta { name: "lower", group: Group::Mappers },
        Meta { name: "seq", group: Group::Generators },
        Meta { name: "skip", group: Group::Transformers },
        Meta { name: "stream", group: Group::Generators },
        Meta { name: "trim", group: Group::Mappers },
        Meta { name: "upper", group: Group::Mappers },
        Meta { name: "x", group: Group::Transformers },
    ]
}

/// The first of the given commands that has the given name.
pub open spec fn find(metas: Seq<Meta>, name: Seq<char>) -> Option<Meta>
    decreases metas.len(),
{
    if metas.len() == 0 {
        None
    } else if metas[0].name@ == name {
        Some(metas[0])
    } else {
        find(metas.drop_first(), name)
    }
}

/// The built-in command of the given name, if there is one.
pub open spec fn builtin(name: Seq<char>) -> Option<Meta> {
    find(registry(), name)
}

/// The built-in commands, in the order of their names.
pub fn metas() -> (metas: Vec<Meta>)
    ensures
        metas@ == registry(),
{
    let mut metas: Vec<Meta> = Vec::new();
    metas.push(Meta { name: "ascii", group: Group::Mappers });
    metas.push(Meta { name: "cat", group: Group::Transformers });
    metas.push(Meta { name: "first", group: Group::Transformers });
    metas.push(Meta { name: "loop", group: Group::Transformers });
    metas.push(Meta { name: "lower", group: Group::Mappers });
    metas.push(Meta { name: "seq", group: Group::Generators });
    metas.push(Meta { name: "skip", group: Group::Transformers });
    metas.push(Meta { name: "stream", group: Group::Generators });
    metas.push(Meta { name: "trim", group: Group::Mappers });
    metas.push(Meta { name: "upper", group: Group::Mappers });
    metas.push(Meta { name: "x", group: Group::Transformers });
    assert(metas@ =~= registry());
    metas
}

/// Tells whether two texts hold the same characters.
pub fn same_text(left: &str, right: &str) -> (same: bool)
    ensures
        same == (left@ == right@),
{
    let first = chars_of(left);
    let second = chars_of(right);
    if first.len() != second.len() {
        return false;
    }
    let mut i: usize = 0;
    while i < first.len()
        invariant
            i <= first.len(),
            first.len() == second.len(),
            first@ == left@,
            second@ == right@,
            forall|k: int| 0 <= k < i ==> first[k] == second[k],
        decreases first.len() - i,
    {
        if first[i] != second[i] {
            return false;
        }
        i += 1;
    }
    assert(first@ =~= second@);
    true
}

/// Looks up the built-in command of the given name.
pub fn get_meta(name: &str) -> (meta: Option<Meta>)
    ensures
        meta == builtin(name@),
{
    let metas = metas();
    let mut i: usize = 0;
    assert(metas@.skip(0) =~= metas@);
    while i < metas.len()
        invariant
            i <= metas.len(),
            metas@ == registry(),
            find(metas@, name@) == find(metas@.skip(i as int), name@),
        decreases metas.len() - i,
    {
        assert(metas@.skip(i as int).drop_first() =~= metas@.skip(i as int + 1));
        assert(metas@.skip(i as int)[0] == metas@[i as int]);
        if same_text(metas[i].name, name) {
            return Some(metas[i]);
        }
        i += 1;
    }
    None
}

} // verus!
