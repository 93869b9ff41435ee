//! Core data that the front end embeds in the programs it produces, and the
//! closed code that computes it.

use std::sync::Arc;
use vstd::prelude::*;
use crate::number::Number;
use crate::text::same_text;

verus! {

/// Operations that the evaluator provides.
#[derive(Debug, Clone, Copy, PartialEq, Eq, Structural)]
pub enum Builtin {
    Append,
    Add,
    Subtract,
    Multiply,
    Divide,
    Greater,
    GreaterEqual,
    Equal,
    NotEqual,
    LessEqual,
    Less,
    Fixpoint,
    Anno,
    Sequence,
    Spark,
    InteractionNet,
    NetArity,
    MergeDuplicate,
    Floor,
    Mod,
    Slice,
    ListMap,
    ListConcat,
    ListLen,
    ListSplit,
    ListSplitEnd,
    ListAt,
    ListHead,
    ListTail,
    TextLines,
    ListEffect,
    ListEffectReturn,
    ListEffectSeq,
    ListEffectAlt,
    ListEffectCut,
    ListEffectFix,
    DictSingleton,
    DictUnion,
    DictUpdate,
    ObjectSpec,
    ObjectFromDict,
    ObjectLocalName,
    ObjectAbstractFromParts,
    ObjectInstanceFromParts,
    ObjectInstance,
    EffectApply,
    EffectCall,
    EffectMap,
    EffectMapRun,
    EffectMapContinue,
    ObjectDefaultDefs,
    ObjectDictDefs,
    ObjectWithDefs,
    ObjectComposedDefs,
    ObjectOverrideDefs,
    IfResult,
    MatchResult,
    AssertUnit,
}

/// A dictionary key.
#[derive(Debug, Eq)]
pub enum Key {
    Atom(String),
    Number(Number),
    Binary(Arc<Vec<u8>>),
    /// A globally unique abstract name.
    AbstractGlobalPath(Arc<Vec<String>>),
    List(Arc<Vec<Key>>),
    Dict(Arc<Vec<(Key, Key)>>),
}

/// A semantic value.
#[derive(Debug, Eq)]
pub enum Value {
    Unit,
    Atom(Key),
    Number(Number),
    Binary(Arc<Vec<u8>>),
    List(Arc<Vec<Value>>),
    Dict(Arc<Vec<(Key, Value)>>),
    Builtin(Builtin),
    /// A value whose demand fails with a message.
    Error(String),
    /// A closed computation that has not been demanded yet.
    Lazy(Arc<ResolvedExpr>),
}

/// A local of closed code.
#[derive(Debug, Clone, Copy, PartialEq, Eq, Structural)]
pub struct BindingId(pub usize);

/// Code whose names are resolved.
#[derive(Debug, Eq)]
pub enum ResolvedExpr {
    /// A value that is part of the code.
    Embedded(Value),
    /// A value that the surroundings of the code provide.
    Provided(Value),
    Local(BindingId),
    List(Vec<ResolvedExpr>),
    Access { base: Box<ResolvedExpr>, path: Vec<ResolvedPathPart> },
    Lambda(Vec<BindingId>, Box<ResolvedExpr>),
    Apply(Box<ResolvedExpr>, Vec<ResolvedExpr>),
}

/// A component of an access path.
#[derive(Debug, Eq)]
pub enum ResolvedPathPart {
    Key(Key),
    Index(ResolvedExpr),
    PathIndex(ResolvedExpr),
}

/// A value or code by its parts.
pub enum Form {
    Text(Seq<char>),
    Size(nat),
    Bytes(Seq<u8>),
    Operation(Builtin),
    Node(Shape, Seq<Form>),
}

/// What a part of a value or of code is.
pub enum Shape {
    Unit,
    Atom,
    Number,
    Binary,
    List,
    Dict,
    Entry,
    Builtin,
    Error,
    Lazy,
    KeyAtom,
    KeyNumber,
    KeyBinary,
    KeyPath,
    KeyList,
    KeyDict,
    Embedded,
    Provided,
    Local,
    ListCode,
    Access,
    Lambda,
    Apply,
    PartKey,
    PartIndex,
    PartPathIndex,
    Many,
}

pub open spec fn shaped(shape: Shape, parts: Seq<Form>) -> Form {
    Form::Node(shape, parts)
}

pub open spec fn spellings(parts: Seq<String>) -> Seq<Form> {
    parts.map_values(|s: String| Form::Text(s@))
}

pub open spec fn places(ids: Seq<BindingId>) -> Seq<Form> {
    ids.map_values(|id: BindingId| Form::Size(id.0 as nat))
}

/// The form of a key.
pub closed spec fn key_form(key: Key) -> Form
    decreases key,
{
    match key {
        Key::Atom(name) => shaped(Shape::KeyAtom, seq![Form::Text(name@)]),
        Key::Number(number) => shaped(Shape::KeyNumber, seq![Form::Text(number.literal@)]),
        Key::Binary(bytes) => shaped(Shape::KeyBinary, seq![Form::Bytes(bytes@)]),
        Key::AbstractGlobalPath(parts) => shaped(Shape::KeyPath, spellings(parts@)),
        Key::List(items) => shaped(Shape::KeyList, keys_form(items@)),
        Key::Dict(entries) => shaped(Shape::KeyDict, key_entries_form(entries@)),
    }
}

pub closed spec fn keys_form(items: Seq<Key>) -> Seq<Form>
    decreases items,
{
    if items.len() == 0 {
        Seq::empty()
    } else {
        keys_form(items.drop_last()).push(key_form(items.last()))
    }
}

pub closed spec fn key_entries_form(items: Seq<(Key, Key)>) -> Seq<Form>
    decreases items,
{
    if items.len() == 0 {
        Seq::empty()
    } else {
        key_entries_form(items.drop_last()).push(
            shaped(Shape::Entry, seq![key_form(items.last().0), key_form(items.last().1)]),
        )
    }
}

/// The form of a value.
pub closed spec fn value_form(value: Value) -> Form
    decreases value,
{
    match value {
        Value::Unit => shaped(Shape::Unit, Seq::empty()),
        Value::Atom(key) => shaped(Shape::Atom, seq![key_form(key)]),
        Value::Number(number) => shaped(Shape::Number, seq![Form::Text(number.literal@)]),
        Value::Binary(bytes) => shaped(Shape::Binary, seq![Form::Bytes(bytes@)]),
        Value::List(items) => shaped(Shape::List, values_form(items@)),
        Value::Dict(entries) => shaped(Shape::Dict, entries_form(entries@)),
        Value::Builtin(builtin) => shaped(Shape::Builtin, seq![Form::Operation(builtin)]),
        Value::Error(message) => shaped(Shape::Error, seq![Form::Text(message@)]),
        Value::Lazy(code) => shaped(Shape::Lazy, seq![code_form(*code)]),
    }
}

pub closed spec fn values_form(items: Seq<Value>) -> Seq<Form>
    decreases items,
{
    if items.len() == 0 {
        Seq::empty()
    } else {
        values_form(items.drop_last()).push(value_form(items.last()))
    }
}

pub closed spec fn entries_form(items: Seq<(Key, Value)>) -> Seq<Form>
    decreases items,
{
    if items.len() == 0 {
        Seq::empty()
    } else {
        entries_form(items.drop_last()).push(
            shaped(Shape::Entry, seq![key_form(items.last().0), value_form(items.last().1)]),
        )
    }
}

/// The form of code.
pub closed spec fn code_form(code: ResolvedExpr) -> Form
    decreases code,
{
    match code {
        ResolvedExpr::Embedded(value) => shaped(Shape::Embedded, seq![value_form(value)]),
        ResolvedExpr::Provided(value) => shaped(Shape::Provided, seq![value_form(value)]),
        ResolvedExpr::Local(id) => shaped(Shape::Local, seq![Form::Size(id.0 as nat)]),
        ResolvedExpr::List(items) => shaped(Shape::ListCode, codes_form(items@)),
        ResolvedExpr::Access { base, path } => shaped(
            Shape::Access,
            seq![code_form(*base), shaped(Shape::Many, parts_form(path@))],
        ),
        ResolvedExpr::Lambda(params, body) => shaped(
            Shape::Lambda,
            seq![shaped(Shape::Many, places(params@)), code_form(*body)],
        ),
        ResolvedExpr::Apply(function, arguments) => shaped(
            Shape::Apply,
            seq![code_form(*function), shaped(Shape::Many, codes_form(arguments@))],
        ),
    }
}

pub closed spec fn codes_form(items: Seq<ResolvedExpr>) -> Seq<Form>
    decreases items,
{
    if items.len() == 0 {
        Seq::empty()
    } else {
        codes_form(items.drop_last()).push(code_form(items.last()))
    }
}

pub closed spec fn part_form(part: ResolvedPathPart) -> Form
    decreases part,
{
    match part {
        ResolvedPathPart::Key(key) => shaped(Shape::PartKey, seq![key_form(key)]),
        ResolvedPathPart::Index(code) => shaped(Shape::PartIndex, seq![code_form(code)]),
        ResolvedPathPart::PathIndex(code) => shaped(Shape::PartPathIndex, seq![code_form(code)]),
    }
}

pub closed spec fn parts_form(items: Seq<ResolvedPathPart>) -> Seq<Form>
    decreases items,
{
    if items.len() == 0 {
        Seq::empty()
    } else {
        parts_form(items.drop_last()).push(part_form(items.last()))
    }
}

/// The forms of a list, one by one.
pub proof fn values_form_push(items: Seq<Value>, item: Value)
    ensures
        values_form(items.push(item)) == values_form(items).push(value_form(item)),
        values_form(items).len() == items.len(),
    decreases items.len(),
{
    assert(items.push(item).drop_last() =~= items);
    if items.len() > 0 {
        values_form_push(items.drop_last(), items.last());
        assert(items.drop_last().push(items.last()) =~= items);
    }
}

/// The forms of a list, one by one.
pub proof fn entries_form_push(items: Seq<(Key, Value)>, item: (Key, Value))
    ensures
        entries_form(items.push(item)) == entries_form(items).push(shaped(Shape::Entry, seq![key_form(item.0), value_form(item.1)])),
        entries_form(items).len() == items.len(),
    decreases items.len(),
{
    assert(items.push(item).drop_last() =~= items);
    if items.len() > 0 {
        entries_form_push(items.drop_last(), items.last());
        assert(items.drop_last().push(items.last()) =~= items);
    }
}

/// The forms of a list, one by one.
pub proof fn codes_form_push(items: Seq<ResolvedExpr>, item: ResolvedExpr)
    ensures
        codes_form(items.push(item)) == codes_form(items).push(code_form(item)),
        codes_form(items).len() == items.len(),
    decreases items.len(),
{
    assert(items.push(item).drop_last() =~= items);
    if items.len() > 0 {
        codes_form_push(items.drop_last(), items.last());
        assert(items.drop_last().push(items.last()) =~= items);
    }
}

/// The forms of a list, one by one.
pub proof fn parts_form_push(items: Seq<ResolvedPathPart>, item: ResolvedPathPart)
    ensures
        parts_form(items.push(item)) == parts_form(items).push(part_form(item)),
        parts_form(items).len() == items.len(),
    decreases items.len(),
{
    assert(items.push(item).drop_last() =~= items);
    if items.len() > 0 {
        parts_form_push(items.drop_last(), items.last());
        assert(items.drop_last().push(items.last()) =~= items);
    }
}

/// Nothing has no forms.
pub proof fn no_forms()
    ensures
        entries_form(Seq::empty()) == Seq::<Form>::empty(),
        values_form(Seq::empty()) == Seq::<Form>::empty(),
        codes_form(Seq::empty()) == Seq::<Form>::empty(),
        parts_form(Seq::empty()) == Seq::<Form>::empty(),
{
}

/// What the form of a dictionary is made of.
pub proof fn dict_form_def(value: Value)
    requires
        value is Dict,
    ensures
        value_form(value) == shaped(Shape::Dict, entries_form(value->Dict_0@)),
{
}

/// The form of an atom.
pub open spec fn atom_form(name: Seq<char>) -> Form {
    shaped(Shape::Atom, seq![atom_key(name)])
}

/// The form of the key that a name writes.
pub open spec fn atom_key(name: Seq<char>) -> Form {
    shaped(Shape::KeyAtom, seq![Form::Text(name)])
}

/// The form of a text.
pub open spec fn text_form(text: Seq<char>) -> Form {
    shaped(Shape::Binary, seq![Form::Bytes(vstd::utf8::encode_utf8(text))])
}

pub open spec fn builtin_form(builtin: Builtin) -> Form {
    shaped(Shape::Builtin, seq![Form::Operation(builtin)])
}

pub open spec fn unit_form() -> Form {
    shaped(Shape::Unit, Seq::empty())
}

pub open spec fn empty_dict_form() -> Form {
    shaped(Shape::Dict, Seq::empty())
}

pub open spec fn entry_form(key: Form, value: Form) -> Form {
    shaped(Shape::Entry, seq![key, value])
}

/// The key that a name writes.
pub fn name_as_key(name: &str) -> (key: Key)
    ensures
        key_form(key) == atom_key(name@),
{
    Key::Atom(name.to_owned())
}

/// The key of a globally unique abstract name.
pub fn global_key(names: Vec<String>) -> (key: Key)
    ensures
        key is AbstractGlobalPath,
        key_form(key) == shaped(
            Shape::KeyPath,
            crate::text::texts(names@).map_values(|s: Seq<char>| Form::Text(s)),
        ),
{
    assert(spellings(names@) =~= crate::text::texts(names@).map_values(
        |s: Seq<char>| Form::Text(s),
    ));
    Key::AbstractGlobalPath(Arc::new(names))
}

impl Key {
    pub fn copy(&self) -> (key: Key)
        ensures
            key == *self,
    {
        match self {
            Key::Atom(name) => Key::Atom(name.clone()),
            Key::Number(number) => Key::Number(Number { literal: number.literal.clone() }),
            Key::Binary(bytes) => Key::Binary(bytes.clone()),
            Key::AbstractGlobalPath(parts) => Key::AbstractGlobalPath(parts.clone()),
            Key::List(items) => Key::List(items.clone()),
            Key::Dict(entries) => Key::Dict(entries.clone()),
        }
    }
}

impl Value {
    pub fn copy(&self) -> (value: Value)
        ensures
            value == *self,
    {
        match self {
            Value::Unit => Value::Unit,
            Value::Atom(key) => Value::Atom(key.copy()),
            Value::Number(number) => Value::Number(Number { literal: number.literal.clone() }),
            Value::Binary(bytes) => Value::Binary(bytes.clone()),
            Value::List(items) => Value::List(items.clone()),
            Value::Dict(entries) => Value::Dict(entries.clone()),
            Value::Builtin(builtin) => Value::Builtin(*builtin),
            Value::Error(message) => Value::Error(message.clone()),
            Value::Lazy(code) => Value::Lazy(code.clone()),
        }
    }

    pub fn unit() -> (value: Value)
        ensures
            value_form(value) == unit_form(),
    {
        Value::Unit
    }

    pub fn atom(name: &str) -> (value: Value)
        ensures
            value_form(value) == atom_form(name@),
    {
        Value::Atom(name_as_key(name))
    }

    pub fn binary_from_text(text: &str) -> (value: Value)
        ensures
            value_form(value) == text_form(text@),
    {
        let bytes = vstd::slice::slice_to_vec(text.as_bytes());
        assert(bytes@ =~= vstd::utf8::encode_utf8(text@));
        Value::Binary(Arc::new(bytes))
    }

    pub fn number(number: Number) -> (value: Value)
        ensures
            value_form(value) == shaped(Shape::Number, seq![Form::Text(number.literal@)]),
    {
        Value::Number(number)
    }

    pub fn builtin(builtin: Builtin) -> (value: Value)
        ensures
            value_form(value) == builtin_form(builtin),
    {
        Value::Builtin(builtin)
    }

    pub fn error(message: &str) -> (value: Value)
        ensures
            value_form(value) == shaped(Shape::Error, seq![Form::Text(message@)]),
    {
        Value::Error(message.to_owned())
    }

    pub fn list(items: Vec<Value>) -> (value: Value)
        ensures
            value_form(value) == shaped(Shape::List, values_form(items@)),
    {
        Value::List(Arc::new(items))
    }

    pub fn dict(entries: Vec<(Key, Value)>) -> (value: Value)
        ensures
            value_form(value) == shaped(Shape::Dict, entries_form(entries@)),
    {
        Value::Dict(Arc::new(entries))
    }

    pub fn empty_dict() -> (value: Value)
        ensures
            value_form(value) == empty_dict_form(),
    {
        let none: Vec<(Key, Value)> = Vec::new();
        assert(entries_form(none@) =~= Seq::empty());
        Value::Dict(Arc::new(none))
    }

    pub fn lazy(code: ResolvedExpr) -> (value: Value)
        ensures
            value_form(value) == shaped(Shape::Lazy, seq![code_form(code)]),
    {
        Value::Lazy(Arc::new(code))
    }
}

pub open spec fn embedded_form(value: Form) -> Form {
    shaped(Shape::Embedded, seq![value])
}

pub open spec fn provided_form(value: Form) -> Form {
    shaped(Shape::Provided, seq![value])
}

pub open spec fn local_form(id: nat) -> Form {
    shaped(Shape::Local, seq![Form::Size(id)])
}

pub open spec fn list_form(items: Seq<Form>) -> Form {
    shaped(Shape::ListCode, items)
}

pub open spec fn access_form(base: Form, path: Seq<Form>) -> Form {
    shaped(Shape::Access, seq![base, shaped(Shape::Many, path)])
}

pub open spec fn lambda_form(params: Seq<nat>, body: Form) -> Form {
    shaped(
        Shape::Lambda,
        seq![shaped(Shape::Many, params.map_values(|id: nat| Form::Size(id))), body],
    )
}

pub open spec fn apply_form(function: Form, arguments: Seq<Form>) -> Form {
    shaped(Shape::Apply, seq![function, shaped(Shape::Many, arguments)])
}

pub open spec fn lazy_form(code: Form) -> Form {
    shaped(Shape::Lazy, seq![code])
}

/// The form of a builtin applied to arguments.
pub open spec fn call_form(builtin: Builtin, arguments: Seq<Form>) -> Form {
    apply_form(embedded_form(builtin_form(builtin)), arguments)
}

/// The form of the key step of a path.
pub open spec fn step_form(name: Seq<char>) -> Form {
    shaped(Shape::PartKey, seq![atom_key(name)])
}

pub open spec fn ids(params: Seq<BindingId>) -> Seq<nat> {
    params.map_values(|id: BindingId| id.0 as nat)
}

impl ResolvedExpr {
    pub fn embedded(value: Value) -> (code: Self)
        ensures
            code_form(code) == embedded_form(value_form(value)),
    {
        ResolvedExpr::Embedded(value)
    }

    pub fn provided(value: Value) -> (code: Self)
        ensures
            code_form(code) == provided_form(value_form(value)),
    {
        ResolvedExpr::Provided(value)
    }

    pub fn local(id: BindingId) -> (code: Self)
        ensures
            code_form(code) == local_form(id.0 as nat),
    {
        ResolvedExpr::Local(id)
    }

    pub fn list(items: Vec<ResolvedExpr>) -> (code: Self)
        ensures
            code_form(code) == list_form(codes_form(items@)),
    {
        ResolvedExpr::List(items)
    }

    pub fn access(base: ResolvedExpr, path: Vec<ResolvedPathPart>) -> (code: Self)
        ensures
            code_form(code) == access_form(code_form(base), parts_form(path@)),
    {
        ResolvedExpr::Access { base: Box::new(base), path }
    }

    pub fn lambda(params: Vec<BindingId>, body: ResolvedExpr) -> (code: Self)
        ensures
            code_form(code) == lambda_form(ids(params@), code_form(body)),
    {
        assert(places(params@) =~= ids(params@).map_values(|id: nat| Form::Size(id)));
        ResolvedExpr::Lambda(params, Box::new(body))
    }

    pub fn apply(function: ResolvedExpr, arguments: Vec<ResolvedExpr>) -> (code: Self)
        ensures
            code_form(code) == apply_form(code_form(function), codes_form(arguments@)),
    {
        ResolvedExpr::Apply(Box::new(function), arguments)
    }
}

/// Code as a list of one.
pub fn one(a: ResolvedExpr) -> (list: Vec<ResolvedExpr>)
    ensures
        codes_form(list@) == seq![code_form(a)],
{
    let mut list: Vec<ResolvedExpr> = Vec::new();
    proof {
        codes_form_push(list@, a);
        assert(codes_form(list@.push(a)) =~= seq![code_form(a)]);
    }
    list.push(a);
    list
}

pub fn two(a: ResolvedExpr, b: ResolvedExpr) -> (list: Vec<ResolvedExpr>)
    ensures
        codes_form(list@) == seq![code_form(a), code_form(b)],
{
    let mut list = one(a);
    proof {
        codes_form_push(list@, b);
    }
    list.push(b);
    list
}

pub fn three(a: ResolvedExpr, b: ResolvedExpr, c: ResolvedExpr) -> (list: Vec<ResolvedExpr>)
    ensures
        codes_form(list@) == seq![code_form(a), code_form(b), code_form(c)],
{
    let mut list = two(a, b);
    proof {
        codes_form_push(list@, c);
    }
    list.push(c);
    list
}

/// The path of one name.
pub fn key_step(name: &str) -> (path: Vec<ResolvedPathPart>)
    ensures
        parts_form(path@) == seq![step_form(name@)],
{
    let mut path: Vec<ResolvedPathPart> = Vec::new();
    let part = ResolvedPathPart::Key(name_as_key(name));
    proof {
        parts_form_push(path@, part);
        assert(parts_form(path@.push(part)) =~= seq![step_form(name@)]);
    }
    path.push(part);
    path
}

/// The path that code computes.
pub fn path_step(code: ResolvedExpr) -> (path: Vec<ResolvedPathPart>)
    ensures
        parts_form(path@) == seq![shaped(Shape::PartPathIndex, seq![code_form(code)])],
{
    let mut path: Vec<ResolvedPathPart> = Vec::new();
    let part = ResolvedPathPart::PathIndex(code);
    proof {
        parts_form_push(path@, part);
        assert(parts_form(path@.push(part)) =~= seq![
            shaped(Shape::PartPathIndex, seq![code_form(code)]),
        ]);
    }
    path.push(part);
    path
}

/// Names as the steps of a path.
pub open spec fn steps_form(names: Seq<Seq<char>>) -> Seq<Form> {
    names.map_values(|name: Seq<char>| step_form(name))
}

/// The path of names.
pub fn key_steps(names: &Vec<String>) -> (path: Vec<ResolvedPathPart>)
    ensures
        parts_form(path@) == steps_form(crate::text::texts(names@)),
{
    let ghost all = steps_form(crate::text::texts(names@));
    let mut path: Vec<ResolvedPathPart> = Vec::new();
    let mut k: usize = 0;
    assert(parts_form(path@) =~= all.take(0));
    while k < names.len()
        invariant
            k <= names.len(),
            all == steps_form(crate::text::texts(names@)),
            all.len() == names.len(),
            parts_form(path@) == all.take(k as int),
        decreases names.len() - k,
    {
        let part = ResolvedPathPart::Key(name_as_key(names[k].as_str()));
        proof {
            parts_form_push(path@, part);
            assert(all[k as int] == step_form(names@[k as int]@));
            assert(all.take(k + 1) =~= all.take(k as int).push(all[k as int]));
        }
        path.push(part);
        k = k + 1;
    }
    assert(all.take(names.len() as int) =~= all);
    path
}

/// Names as atoms in code.
pub open spec fn atoms_form(names: Seq<Seq<char>>) -> Seq<Form> {
    names.map_values(|name: Seq<char>| embedded_form(atom_form(name)))
}

/// Code that lists names as atoms.
pub fn atom_list(names: &Vec<String>) -> (list: Vec<ResolvedExpr>)
    ensures
        codes_form(list@) == atoms_form(crate::text::texts(names@)),
{
    let ghost all = atoms_form(crate::text::texts(names@));
    let mut list: Vec<ResolvedExpr> = Vec::new();
    let mut k: usize = 0;
    assert(codes_form(list@) =~= all.take(0));
    while k < names.len()
        invariant
            k <= names.len(),
            all == atoms_form(crate::text::texts(names@)),
            all.len() == names.len(),
            codes_form(list@) == all.take(k as int),
        decreases names.len() - k,
    {
        let code = ResolvedExpr::embedded(Value::atom(names[k].as_str()));
        proof {
            codes_form_push(list@, code);
            assert(all[k as int] == embedded_form(atom_form(names@[k as int]@)));
            assert(all.take(k + 1) =~= all.take(k as int).push(all[k as int]));
        }
        list.push(code);
        k = k + 1;
    }
    assert(all.take(names.len() as int) =~= all);
    list
}

/// The locals that code binds, from the outside in.
#[derive(Debug, PartialEq, Eq)]
pub struct ResolverContext {
    pub names: Vec<String>,
    pub next: usize,
}

impl ResolverContext {
    pub fn new() -> (context: Self)
        ensures
            context.names@.len() == 0,
            context.next == 0,
    {
        ResolverContext { names: Vec::new(), next: 0 }
    }

    pub fn len(&self) -> (n: usize)
        ensures
            n == self.names@.len(),
    {
        self.names.len()
    }

    /// Binds a local that no source can name. Every local has its own id.
    pub fn push_internal_binding(&mut self, name: &str) -> (id: BindingId)
        requires
            old(self).next < usize::MAX,
        ensures
            id.0 == old(self).next,
            final(self).next == old(self).next + 1,
            final(self).names@.len() == old(self).names@.len() + 1,
            final(self).names@.drop_last() == old(self).names@,
            final(self).names@.last()@ == name@,
    {
        let id = BindingId(self.next);
        self.names.push(name.to_owned());
        assert(self.names@.drop_last() =~= old(self).names@);
        self.next = self.next + 1;
        id
    }

    /// Forgets the locals beyond the first `len`. Their ids are not used again.
    pub fn truncate(&mut self, len: usize)
        requires
            len <= old(self).names@.len(),
        ensures
            final(self).names@ == old(self).names@.take(len as int),
            final(self).next == old(self).next,
    {
        self.names.truncate(len);
        assert(self.names@ =~= old(self).names@.take(len as int));
    }
}

/// The value of closed code by its form: a value stands for itself, and other
/// code for its demand.
pub open spec fn lowered_form(code: Form) -> Form {
    match code {
        Form::Node(Shape::Embedded, parts) => parts[0],
        Form::Node(Shape::Provided, parts) => parts[0],
        _ => lazy_form(code),
    }
}

/// The value of closed code.
pub fn lower_resolved_expr(code: ResolvedExpr) -> (value: Value)
    ensures
        value_form(value) == lowered_form(code_form(code)),
{
    match code {
        ResolvedExpr::Embedded(value) => value,
        ResolvedExpr::Provided(value) => value,
        _ => Value::lazy(code),
    }
}

/// The value that a key stands for.
pub open spec fn key_value_form(key: Key) -> Form
    decreases key,
{
    match key {
        Key::Atom(_) => shaped(Shape::Atom, seq![key_form(key)]),
        Key::Number(number) => shaped(Shape::Number, seq![Form::Text(number.literal@)]),
        Key::Binary(bytes) => shaped(Shape::Binary, seq![Form::Bytes(bytes@)]),
        Key::AbstractGlobalPath(_) => shaped(Shape::Atom, seq![key_form(key)]),
        Key::List(items) => shaped(Shape::List, key_values_form(items@)),
        Key::Dict(entries) => shaped(Shape::Dict, key_pairs_form(entries@)),
    }
}

pub open spec fn key_values_form(items: Seq<Key>) -> Seq<Form>
    decreases items,
{
    if items.len() == 0 {
        Seq::empty()
    } else {
        key_values_form(items.drop_last()).push(key_value_form(items.last()))
    }
}

pub open spec fn key_pairs_form(items: Seq<(Key, Key)>) -> Seq<Form>
    decreases items,
{
    if items.len() == 0 {
        Seq::empty()
    } else {
        key_pairs_form(items.drop_last()).push(
            entry_form(key_form(items.last().0), key_value_form(items.last().1)),
        )
    }
}

/// The value that a key stands for.
pub fn key_to_value(key: &Key) -> (value: Value)
    ensures
        value_form(value) == key_value_form(*key),
    decreases key,
{
    match key {
        Key::Atom(_) => Value::Atom(key.copy()),
        Key::Number(number) => Value::Number(Number { literal: number.literal.clone() }),
        Key::Binary(bytes) => Value::Binary(bytes.clone()),
        Key::AbstractGlobalPath(_) => Value::Atom(key.copy()),
        Key::List(items) => {
            let mut found: Vec<Value> = Vec::new();
            let mut k: usize = 0;
            assert(items@.take(0) =~= Seq::empty());
            while k < items.len()
                invariant
                    k <= items.len(),
                    decreases_to!(key => items),
                    values_form(found@) == key_values_form(items@.take(k as int)),
                decreases items.len() - k,
            {
                let value = key_to_value(&items[k]);
                proof {
                    values_form_push(found@, value);
                    assert(items@.take(k + 1).drop_last() =~= items@.take(k as int));
                }
                found.push(value);
                k = k + 1;
            }
            assert(items@.take(items@.len() as int) =~= items@);
            Value::list(found)
        },
        Key::Dict(entries) => {
            let mut found: Vec<(Key, Value)> = Vec::new();
            let mut k: usize = 0;
            assert(entries@.take(0) =~= Seq::empty());
            while k < entries.len()
                invariant
                    k <= entries.len(),
                    decreases_to!(key => entries),
                    entries_form(found@) == key_pairs_form(entries@.take(k as int)),
                decreases entries.len() - k,
            {
                let entry = (entries[k].0.copy(), key_to_value(&entries[k].1));
                proof {
                    entries_form_push(found@, entry);
                    assert(entries@.take(k + 1).drop_last() =~= entries@.take(k as int));
                }
                found.push(entry);
                k = k + 1;
            }
            assert(entries@.take(entries@.len() as int) =~= entries@);
            Value::dict(found)
        },
    }
}

/// The form of a list holds the form of each of its items.
pub proof fn codes_form_at(items: Seq<ResolvedExpr>)
    ensures
        codes_form(items).len() == items.len(),
        forall|i: int|
            0 <= i < items.len() ==> #[trigger] codes_form(items)[i] == code_form(items[i]),
    decreases items.len(),
{
    if items.len() > 0 {
        codes_form_at(items.drop_last());
    }
}

/// The form of a function is that of its body over its parameters.
pub proof fn lambda_code(params: Vec<BindingId>, body: Box<ResolvedExpr>)
    ensures
        code_form(ResolvedExpr::Lambda(params, body)) == lambda_form(ids(params@), code_form(*body)),
{
    let x = places(params@);
    let y = ids(params@).map_values(|id: nat| Form::Size(id));
    assert(x =~= y);
}

} // verus!
