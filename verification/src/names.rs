//! Source spellings of local names.

use vstd::prelude::*;
use crate::text::{chars_of, same_text, string_of};

verus! {

/// A local name as written, and the name by which its scope refers to it.
///
/// The spelling `_` introduces no name. A leading underscore before another
/// scalar suppresses the unused-local warning and is not part of the name.
#[derive(Debug, Clone, PartialEq, Eq)]
pub struct LocalName {
    pub raw: String,
    pub canonical: Option<String>,
    pub suppress_unused_warning: bool,
}

pub struct LocalNameView {
    pub raw: Seq<char>,
    pub canonical: Option<Seq<char>>,
    pub suppress: bool,
}

impl View for LocalName {
    type V = LocalNameView;

    open spec fn view(&self) -> LocalNameView {
        LocalNameView {
            raw: self.raw@,
            canonical: match self.canonical {
                Some(name) => Some(name@),
                None => None,
            },
            suppress: self.suppress_unused_warning,
        }
    }
}

/// The name that a spelling introduces into its scope.
pub open spec fn canonical_name(raw: Seq<char>) -> Option<Seq<char>> {
    if raw.len() > 0 && raw[0] == '_' {
        if raw.len() == 1 {
            None
        } else {
            Some(raw.skip(1))
        }
    } else {
        Some(raw)
    }
}

/// `true` when a spelling asks for no unused-local warning.
pub open spec fn suppressed(raw: Seq<char>) -> bool {
    raw.len() > 0 && raw[0] == '_'
}

/// Everything that a spelling says about a local name.
pub open spec fn local_name(raw: Seq<char>) -> LocalNameView {
    LocalNameView { raw, canonical: canonical_name(raw), suppress: suppressed(raw) }
}

pub fn local_name_metadata(raw: &str) -> (name: LocalName)
    ensures
        name@ == local_name(raw@),
{
    let chars = chars_of(raw);
    if chars.len() > 0 && chars[0] == '_' {
        if chars.len() == 1 {
            LocalName { raw: raw.to_owned(), canonical: None, suppress_unused_warning: true }
        } else {
            let rest = string_of(&chars, 1, chars.len());
            assert(rest@ =~= raw@.skip(1));
            LocalName { raw: raw.to_owned(), canonical: Some(rest), suppress_unused_warning: true }
        }
    } else {
        LocalName {
            raw: raw.to_owned(),
            canonical: Some(raw.to_owned()),
            suppress_unused_warning: false,
        }
    }
}

/// The views of a list of local names.
pub open spec fn local_views(locals: Seq<LocalName>) -> Seq<LocalNameView> {
    locals.map_values(|l: LocalName| l@)
}

/// The metadata of a list of spellings.
pub open spec fn named(raws: Seq<Seq<char>>) -> Seq<LocalNameView> {
    raws.map_values(|raw: Seq<char>| local_name(raw))
}

/// The innermost binding of `name`, or `-1`.
pub open spec fn binding_of(scope: Seq<LocalNameView>, name: Seq<char>) -> int
    decreases scope.len(),
{
    if scope.len() == 0 {
        -1
    } else if scope.last().canonical == Some(name) {
        scope.len() - 1
    } else {
        binding_of(scope.drop_last(), name)
    }
}

/// A name resolves to the last binding that introduces it.
pub proof fn binding_is_innermost(scope: Seq<LocalNameView>, name: Seq<char>)
    ensures
        -1 <= binding_of(scope, name) < scope.len(),
        binding_of(scope, name) >= 0 ==> scope[binding_of(scope, name)].canonical == Some(
            name,
        ),
        forall|i: int| binding_of(scope, name) < i < scope.len() ==> scope[i].canonical != Some(name),
    decreases scope.len(),
{
    if scope.len() > 0 && scope.last().canonical != Some(name) {
        binding_is_innermost(scope.drop_last(), name);
        assert forall|i: int| binding_of(scope, name) < i < scope.len() implies
            scope[i].canonical != Some(name) by {
            if i < scope.len() - 1 {
                assert(scope.drop_last()[i] == scope[i]);
            }
        }
    }
}

/// Copies a local name.
pub fn copy_local(local: &LocalName) -> (copy: LocalName)
    ensures
        copy@ == local@,
{
    let canonical = match &local.canonical {
        Some(name) => Some(name.clone()),
        None => None,
    };
    LocalName {
        raw: local.raw.clone(),
        canonical,
        suppress_unused_warning: local.suppress_unused_warning,
    }
}

/// Copies a scope.
pub fn copy_locals(locals: &Vec<LocalName>) -> (copy: Vec<LocalName>)
    ensures
        local_views(copy@) == local_views(locals@),
{
    let mut copy: Vec<LocalName> = Vec::new();
    let mut i: usize = 0;
    while i < locals.len()
        invariant
            i <= locals.len(),
            copy.len() == i,
            forall|j: int| 0 <= j < i ==> copy[j]@ == locals[j]@,
        decreases locals.len() - i,
    {
        copy.push(copy_local(&locals[i]));
        i = i + 1;
    }
    assert(local_views(copy@) =~= local_views(locals@));
    copy
}

/// Finds the innermost binding of a name.
pub fn find_binding(locals: &Vec<LocalName>, name: &str) -> (index: Option<usize>)
    ensures
        match index {
            Some(i) => i == binding_of(local_views(locals@), name@),
            None => binding_of(local_views(locals@), name@) == -1,
        },
{
    let mut i: usize = locals.len();
    let ghost scope = local_views(locals@);
    assert(scope.take(i as int) =~= scope);
    while i > 0
        invariant
            i <= locals.len(),
            scope == local_views(locals@),
            binding_of(scope, name@) == binding_of(scope.take(i as int), name@),
        decreases i,
    {
        i = i - 1;
        assert(scope.take(i + 1).drop_last() =~= scope.take(i as int));
        assert(scope.take(i + 1).last() == locals[i as int]@);
        if let Some(canonical) = &locals[i].canonical {
            if same_text(canonical.as_str(), name) {
                return Some(i);
            }
        }
    }
    None
}

/// Appends the local that a spelling introduces.
pub fn push_local(locals: &mut Vec<LocalName>, raw: &str)
    ensures
        final(locals).len() == old(locals).len() + 1,
        local_views(final(locals)@) == local_views(old(locals)@).push(local_name(raw@)),
{
    locals.push(local_name_metadata(raw));
    assert(local_views(locals@) =~= local_views(old(locals)@).push(local_name(raw@)));
}

} // verus!
