//! Language-version-owned source keywords.
//!
//! The front end implements one grammar, `g0`. Its reserved words are kept
//! here rather than in contextual lists of individual productions.

use vstd::prelude::*;
use vstd::string::StringExecFns;
use crate::text::{chars_of, same_text, string_of};

verus! {

#[derive(Debug, Clone, Copy, PartialEq, Eq, Structural)]
pub enum KeywordRole {
    Declaration,
    Expression,
    Statement,
    Operator,
    Modifier,
    LayoutIntroducer,
    ObjectAlias,
    SpecialReference,
}

#[derive(Debug, Clone, PartialEq, Eq)]
pub struct Keyword {
    spelling: String,
    roles: Vec<KeywordRole>,
}

/// The spelling of each reserved word and the sites where `g0` uses it, in
/// alphabetical order.
pub open spec fn g0_table() -> Seq<(Seq<char>, Seq<KeywordRole>)> {
    seq![
        ("abstract"@, seq![KeywordRole::Declaration, KeywordRole::Expression, KeywordRole::Statement, KeywordRole::Modifier]),
        ("and"@, seq![KeywordRole::Operator]),
        ("as"@, seq![KeywordRole::Modifier]),
        ("at"@, seq![KeywordRole::Modifier]),
        ("binary"@, seq![KeywordRole::Modifier]),
        ("do"@, seq![KeywordRole::Expression, KeywordRole::LayoutIntroducer]),
        ("else"@, seq![KeywordRole::Modifier]),
        ("extend"@, seq![KeywordRole::Declaration]),
        ("extends"@, seq![KeywordRole::Modifier]),
        ("if"@, seq![KeywordRole::Expression]),
        ("import"@, seq![KeywordRole::Declaration]),
        ("in"@, seq![KeywordRole::Modifier]),
        ("language"@, seq![KeywordRole::Declaration]),
        ("let"@, seq![KeywordRole::Expression, KeywordRole::LayoutIntroducer]),
        ("match"@, seq![KeywordRole::Expression]),
        ("module"@, seq![KeywordRole::SpecialReference]),
        ("object"@, seq![KeywordRole::Declaration, KeywordRole::Expression]),
        ("or"@, seq![KeywordRole::Operator]),
        ("self"@, seq![KeywordRole::SpecialReference, KeywordRole::ObjectAlias]),
        ("then"@, seq![KeywordRole::Modifier]),
        ("try"@, seq![KeywordRole::Expression]),
        ("try_match"@, seq![KeywordRole::Expression]),
        ("unique"@, seq![KeywordRole::Declaration]),
        ("using"@, seq![KeywordRole::Expression]),
        ("when"@, seq![KeywordRole::Modifier, KeywordRole::LayoutIntroducer]),
        ("where"@, seq![KeywordRole::Expression, KeywordRole::LayoutIntroducer]),
        ("with"@, seq![KeywordRole::Modifier, KeywordRole::LayoutIntroducer]),
    ]
}

impl Keyword {
    /// The reserved word and its roles.
    pub closed spec fn entry(&self) -> (Seq<char>, Seq<KeywordRole>) {
        (self.spelling@, self.roles@)
    }

    pub fn spelling(&self) -> (spelling: &str)
        ensures
            spelling@ == self.entry().0,
    {
        self.spelling.as_str()
    }

    pub fn roles(&self) -> (roles: &Vec<KeywordRole>)
        ensures
            roles@ == self.entry().1,
    {
        &self.roles
    }
}

/// The entries of a list of keywords.
pub open spec fn entries(keywords: Seq<Keyword>) -> Seq<(Seq<char>, Seq<KeywordRole>)> {
    keywords.map_values(|k: Keyword| k.entry())
}

fn one(a: KeywordRole) -> (roles: Vec<KeywordRole>)
    ensures
        roles@ == seq![a],
{
    let mut roles: Vec<KeywordRole> = Vec::new();
    roles.push(a);
    assert(roles@ =~= seq![a]);
    roles
}

fn two(a: KeywordRole, b: KeywordRole) -> (roles: Vec<KeywordRole>)
    ensures
        roles@ == seq![a, b],
{
    let mut roles = one(a);
    roles.push(b);
    assert(roles@ =~= seq![a, b]);
    roles
}

fn four(a: KeywordRole, b: KeywordRole, c: KeywordRole, d: KeywordRole) -> (roles: Vec<
    KeywordRole,
>)
    ensures
        roles@ == seq![a, b, c, d],
{
    let mut roles = two(a, b);
    roles.push(c);
    roles.push(d);
    assert(roles@ =~= seq![a, b, c, d]);
    roles
}

fn push_keyword(table: &mut Vec<Keyword>, spelling: &str, roles: Vec<KeywordRole>)
    ensures
        entries(final(table)@) == entries(old(table)@).push((spelling@, roles@)),
{
    table.push(Keyword { spelling: spelling.to_owned(), roles });
    assert(entries(table@) =~= entries(old(table)@).push((spelling@, roles@)));
}

/// The reserved words of `g0`, in alphabetical order.
pub fn g0_keywords() -> (table: Vec<Keyword>)
    ensures
        entries(table@) == g0_table(),
{
    let mut table: Vec<Keyword> = Vec::new();
    assert(entries(table@) =~= Seq::<(Seq<char>, Seq<KeywordRole>)>::empty());
    push_keyword(&mut table, "abstract", four(KeywordRole::Declaration, KeywordRole::Expression, KeywordRole::Statement, KeywordRole::Modifier));
    push_keyword(&mut table, "and", one(KeywordRole::Operator));
    push_keyword(&mut table, "as", one(KeywordRole::Modifier));
    push_keyword(&mut table, "at", one(KeywordRole::Modifier));
    push_keyword(&mut table, "binary", one(KeywordRole::Modifier));
    push_keyword(&mut table, "do", two(KeywordRole::Expression, KeywordRole::LayoutIntroducer));
    push_keyword(&mut table, "else", one(KeywordRole::Modifier));
    push_keyword(&mut table, "extend", one(KeywordRole::Declaration));
    push_keyword(&mut table, "extends", one(KeywordRole::Modifier));
    push_keyword(&mut table, "if", one(KeywordRole::Expression));
    push_keyword(&mut table, "import", one(KeywordRole::Declaration));
    push_keyword(&mut table, "in", one(KeywordRole::Modifier));
    push_keyword(&mut table, "language", one(KeywordRole::Declaration));
    push_keyword(&mut table, "let", two(KeywordRole::Expression, KeywordRole::LayoutIntroducer));
    push_keyword(&mut table, "match", one(KeywordRole::Expression));
    push_keyword(&mut table, "module", one(KeywordRole::SpecialReference));
    push_keyword(&mut table, "object", two(KeywordRole::Declaration, KeywordRole::Expression));
    push_keyword(&mut table, "or", one(KeywordRole::Operator));
    push_keyword(&mut table, "self", two(KeywordRole::SpecialReference, KeywordRole::ObjectAlias));
    push_keyword(&mut table, "then", one(KeywordRole::Modifier));
    push_keyword(&mut table, "try", one(KeywordRole::Expression));
    push_keyword(&mut table, "try_match", one(KeywordRole::Expression));
    push_keyword(&mut table, "unique", one(KeywordRole::Declaration));
    push_keyword(&mut table, "using", one(KeywordRole::Expression));
    push_keyword(&mut table, "when", two(KeywordRole::Modifier, KeywordRole::LayoutIntroducer));
    push_keyword(&mut table, "where", two(KeywordRole::Expression, KeywordRole::LayoutIntroducer));
    push_keyword(&mut table, "with", two(KeywordRole::Modifier, KeywordRole::LayoutIntroducer));
    assert(entries(table@) =~= g0_table());
    table
}

/// The position of `name` in a table, or `-1`.
pub open spec fn keyword_index(table: Seq<(Seq<char>, Seq<KeywordRole>)>, name: Seq<char>) -> int
    decreases table.len(),
{
    if table.len() == 0 {
        -1
    } else if table.last().0 == name {
        table.len() - 1
    } else {
        keyword_index(table.drop_last(), name)
    }
}

/// The roles of a reserved word of `g0`.
pub open spec fn g0_roles(name: Seq<char>) -> Option<Seq<KeywordRole>> {
    if keyword_index(g0_table(), name) >= 0 {
        Some(g0_table()[keyword_index(g0_table(), name)].1)
    } else {
        None
    }
}

/// `true` when `g0` reserves a word.
pub open spec fn reserved(name: Seq<char>) -> bool {
    g0_roles(name) is Some
}

/// The word whose reservation decides whether a local name is free: one
/// leading underscore, if anything follows it, is not part of the name.
pub open spec fn unsuppressed(name: Seq<char>) -> Seq<char> {
    if name.len() > 1 && name[0] == '_' {
        name.skip(1)
    } else {
        name
    }
}

proof fn keyword_index_bounds(table: Seq<(Seq<char>, Seq<KeywordRole>)>, name: Seq<char>)
    ensures
        -1 <= keyword_index(table, name) < table.len(),
        keyword_index(table, name) >= 0 ==> table[keyword_index(table, name)].0 == name,
        keyword_index(table, name) < 0 ==> forall|i: int|
            0 <= i < table.len() ==> table[i].0 != name,
    decreases table.len(),
{
    if table.len() > 0 && table.last().0 != name {
        keyword_index_bounds(table.drop_last(), name);
        if keyword_index(table, name) < 0 {
            assert forall|i: int| 0 <= i < table.len() implies table[i].0 != name by {
                if i < table.len() - 1 {
                    assert(table.drop_last()[i] == table[i]);
                }
            }
        }
    }
}

/// A word is reserved exactly when the table lists it.
pub proof fn reserved_iff_listed(name: Seq<char>)
    ensures
        reserved(name) <==> exists|i: int|
            0 <= i < g0_table().len() && (#[trigger] g0_table()[i]).0 == name,
{
    keyword_index_bounds(g0_table(), name);
    if reserved(name) {
        let i = keyword_index(g0_table(), name);
        assert(g0_table()[i].0 == name);
    }
}

/// Looks a word up among the keywords of `g0`.
pub fn g0_keyword(name: &str) -> (keyword: Option<Keyword>)
    ensures
        match keyword {
            Some(keyword) => g0_roles(name@) == Some(keyword.entry().1) && keyword.entry().0
                == name@,
            None => !reserved(name@),
        },
{
    let mut table = g0_keywords();
    let ghost full = g0_table();
    assert(full.take(full.len() as int) =~= full);
    while table.len() > 0
        invariant
            full == g0_table(),
            table.len() <= full.len(),
            entries(table@) == full.take(table.len() as int),
            keyword_index(full, name@) == keyword_index(full.take(table.len() as int), name@),
        decreases table.len(),
    {
        let ghost n = table.len();
        assert(entries(table@)[n - 1] == table@[n - 1].entry());
        assert(full.take(n as int).drop_last() =~= full.take(n - 1));
        assert(entries(table@).drop_last() =~= entries(table@.drop_last()));
        match table.pop() {
            Some(keyword) => {
                if same_text(keyword.spelling.as_str(), name) {
                    return Some(keyword);
                }
            },
            None => {},
        }
    }
    None
}

/// Looks up the keyword whose identity a local spelling retains.
pub fn canonical_keyword(name: &str) -> (keyword: Option<Keyword>)
    ensures
        match keyword {
            Some(keyword) => g0_roles(unsuppressed(name@)) == Some(keyword.entry().1)
                && keyword.entry().0 == unsuppressed(name@),
            None => !reserved(unsuppressed(name@)),
        },
{
    let chars = chars_of(name);
    if chars.len() > 1 && chars[0] == '_' {
        let rest = string_of(&chars, 1, chars.len());
        assert(rest@ =~= name@.skip(1));
        g0_keyword(rest.as_str())
    } else {
        g0_keyword(name)
    }
}

/// `true` when a word introduces a layout body.
pub open spec fn introduces_layout(name: Seq<char>) -> bool {
    g0_roles(name) matches Some(roles) && roles.contains(KeywordRole::LayoutIntroducer)
}

pub fn g0_layout_introducer(name: &str) -> (b: bool)
    ensures
        b == introduces_layout(name@),
{
    match g0_keyword(name) {
        Some(keyword) => {
            let mut i: usize = 0;
            while i < keyword.roles.len()
                invariant
                    i <= keyword.roles.len(),
                    g0_roles(name@) == Some(keyword.roles@),
                    forall|j: int|
                        0 <= j < i ==> keyword.roles[j] != KeywordRole::LayoutIntroducer,
                decreases keyword.roles.len() - i,
            {
                if keyword.roles[i] == KeywordRole::LayoutIntroducer {
                    assert(keyword.roles@.contains(KeywordRole::LayoutIntroducer));
                    return true;
                }
                i = i + 1;
            }
            false
        },
        None => false,
    }
}

/// How a program is told that it uses a reserved word as a name.
#[verifier::opaque]
pub open spec fn reserved_message(spelling: Seq<char>) -> Seq<char> {
    "`"@ + spelling + "` is a reserved keyword in language `g0`; use `'"@ + spelling
        + "` for atom data or `.['"@ + spelling + "]` for a path component"@
}

pub fn reserved_keyword_message(keyword: &Keyword) -> (message: String)
    ensures
        message@ == reserved_message(keyword.entry().0),
{
    proof {
        reveal(reserved_message);
    }
    let mut message = "`".to_owned();
    message.append(keyword.spelling.as_str());
    message.append("` is a reserved keyword in language `g0`; use `'");
    message.append(keyword.spelling.as_str());
    message.append("` for atom data or `.['");
    message.append(keyword.spelling.as_str());
    message.append("]` for a path component");
    message
}

/// `true` when the first spelling precedes the second alphabetically.
pub open spec fn precedes(left: Seq<char>, right: Seq<char>) -> bool
    decreases left.len(),
{
    if left.len() == 0 {
        right.len() > 0
    } else if right.len() == 0 {
        false
    } else if left[0] == right[0] {
        precedes(left.skip(1), right.skip(1))
    } else {
        left[0] < right[0]
    }
}

/// The keyword table is sorted and lists no word twice.
#[verifier::rlimit(50)]
pub proof fn table_is_sorted()
    ensures
        forall|i: int|
            0 <= i < g0_table().len() - 1 ==> precedes(
                (#[trigger] g0_table()[i]).0,
                g0_table()[i + 1].0,
            ),
{
    reveal_strlit("abstract");
    reveal_strlit("and");
    reveal_strlit("as");
    reveal_strlit("at");
    reveal_strlit("binary");
    reveal_strlit("do");
    reveal_strlit("else");
    reveal_strlit("extend");
    reveal_strlit("extends");
    reveal_strlit("if");
    reveal_strlit("import");
    reveal_strlit("in");
    reveal_strlit("language");
    reveal_strlit("let");
    reveal_strlit("match");
    reveal_strlit("module");
    reveal_strlit("object");
    reveal_strlit("or");
    reveal_strlit("self");
    reveal_strlit("then");
    reveal_strlit("try");
    reveal_strlit("try_match");
    reveal_strlit("unique");
    reveal_strlit("using");
    reveal_strlit("when");
    reveal_strlit("where");
    reveal_strlit("with");
    reveal_with_fuel(precedes, 9);
    assert(precedes("abstract"@, "and"@));
    assert(precedes("and"@, "as"@));
    assert(precedes("as"@, "at"@));
    assert(precedes("at"@, "binary"@));
    assert(precedes("binary"@, "do"@));
    assert(precedes("do"@, "else"@));
    assert(precedes("else"@, "extend"@));
    assert(precedes("extend"@, "extends"@));
    assert(precedes("extends"@, "if"@));
    assert(precedes("if"@, "import"@));
    assert(precedes("import"@, "in"@));
    assert(precedes("in"@, "language"@));
    assert(precedes("language"@, "let"@));
    assert(precedes("let"@, "match"@));
    assert(precedes("match"@, "module"@));
    assert(precedes("module"@, "object"@));
    assert(precedes("object"@, "or"@));
    assert(precedes("or"@, "self"@));
    assert(precedes("self"@, "then"@));
    assert(precedes("then"@, "try"@));
    assert(precedes("try"@, "try_match"@));
    assert(precedes("try_match"@, "unique"@));
    assert(precedes("unique"@, "using"@));
    assert(precedes("using"@, "when"@));
    assert(precedes("when"@, "where"@));
    assert(precedes("where"@, "with"@));
}

} // verus!
