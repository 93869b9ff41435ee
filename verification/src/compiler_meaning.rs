//! What the definitions that the compiler builds give.

use vstd::prelude::*;
use crate::body_meaning;
use crate::body_meaning::hides_spec;
use crate::compiler_values;
use crate::lowered_meaning;
use crate::lowered_meaning::given;
use crate::objects;
use crate::semantics;
use crate::semantics::{annotated, call, meaning, named, single, sound, value, Model};
use crate::values;
use crate::values::{Builtin, Form};

verus! {

/// An object that is a given value has the members of that value, whatever it
/// inherits.
pub proof fn constant_definitions_give_their_value<D>(m: Model<D>, held: Form, base: D, itself: D)
    requires
        sound(m),
    ensures
        given(m, value(m, compiler_values::constant_defs_of(held)), base, itself) == value(m, held),
{
    lowered_meaning::constant_definitions(m, held, base, itself);
}

/// An object that declares nothing has what it inherits, without the
/// specification.
pub proof fn empty_definitions_give_what_is_inherited<D>(m: Model<D>, base: D, itself: D)
    requires
        sound(m),
    ensures
        hides_spec(m, base, given(m, value(m, compiler_values::empty_defs_form()), base, itself)),
{
    let none = Map::<nat, D>::empty();
    let body = objects::visible_form(values::local_form(0));
    semantics::value_of_lazy(m, values::lambda_form(seq![0, 1], body));
    lowered_meaning::beta(m, none, seq![0, 1], body, seq![base, itself]);
    lowered_meaning::bound_two(none, 0, 1, base, itself);
    let e = none.insert(0, base).insert(1, itself);
    semantics::meaning_of_local(m, e, 0);
    body_meaning::meaning_of_visible(m, e, values::local_form(0));
}

/// A dictionary is another with a language where none was named, and with a
/// failure there otherwise.
pub open spec fn adds_language<D>(m: Model<D>, prior: D, after: D, language: D) -> bool {
    let before = (m.at)(prior, named(m, "language"@));
    &&& (m.is_undefined)(before) ==> (m.at)(after, named(m, "language"@)) == language
    &&& (m.is_defined)(before) ==> exists|note: D|
        (m.at)(after, named(m, "language"@)) == #[trigger] (m.failure)(note)
    &&& forall|k: Form|
        k != values::atom_key("language"@) ==> #[trigger] (m.at)(after, (m.key)(k)) == (m.at)(
            prior,
            (m.key)(k),
        )
}

/// Definitions that add a language.
pub open spec fn names_language<D>(m: Model<D>, defs: D, language: D) -> bool {
    forall|prior: D, itself: D|
        adds_language(m, prior, #[trigger] given(m, defs, prior, itself), language)
}

/// The environment of the macros of a file is the given one, with definitions
/// that add the language of the file.
pub proof fn macro_environments_name_the_language<D>(m: Model<D>, base: Form, language: Form)
    requires
        sound(m),
    ensures
        exists|defs: D|
            #[trigger] names_language(m, defs, value(m, language)) && value(
                m,
                compiler_values::macro_environment_of(base, language),
            ) == call(m, Builtin::ObjectWithDefs, seq![value(m, base), defs]),
{
    let none = Map::<nat, D>::empty();
    let b = value(m, base);
    let l = value(m, language);
    let f = compiler_values::macro_environment_form();
    let arguments = seq![values::provided_form(base), values::provided_form(language)];
    semantics::value_of_lazy(m, values::apply_form(values::embedded_form(f), arguments));
    semantics::meaning_of_apply(m, none, values::embedded_form(f), arguments);
    semantics::meanings_of_two(
        m,
        none,
        values::provided_form(base),
        values::provided_form(language),
    );
    semantics::meaning_of_value(m, none, base);
    semantics::meaning_of_value(m, none, language);
    semantics::meaning_of_value(m, none, f);
    let prior = values::local_form(2);
    let held = compiler_values::member(prior, "language"@);
    let checked = compiler_values::assertion_form(
        "assert_undefined"@,
        "language"@,
        held,
        values::local_form(1),
    );
    let update = compiler_values::update_form("language"@, checked, prior);
    let own = values::lambda_form(seq![2, 3], update);
    let body = values::call_form(Builtin::ObjectWithDefs, seq![values::local_form(0), own]);
    semantics::value_of_lazy(m, values::lambda_form(seq![0, 1], body));
    lowered_meaning::beta(m, none, seq![0, 1], body, seq![b, l]);
    lowered_meaning::bound_two(none, 0, 1, b, l);
    let e = none.insert(0, b).insert(1, l);
    semantics::meaning_of_call(m, e, Builtin::ObjectWithDefs, seq![values::local_form(0), own]);
    semantics::meanings_of_two(m, e, values::local_form(0), own);
    semantics::meaning_of_local(m, e, 0);
    let defs = meaning(m, e, own);
    assert(value(m, compiler_values::macro_environment_of(base, language)) == call(
        m,
        Builtin::ObjectWithDefs,
        seq![b, defs],
    ));
    assert forall|p: D, itself: D|
        adds_language(m, p, #[trigger] given(m, defs, p, itself), l) by {
        lowered_meaning::beta(m, e, seq![2, 3], update, seq![p, itself]);
        lowered_meaning::bound_two(e, 2, 3, p, itself);
        let g = e.insert(2, p).insert(3, itself);
        semantics::meaning_of_local(m, g, 2);
        semantics::meaning_of_local(m, g, 1);
        lowered_meaning::meaning_of_member(m, g, prior, "language"@);
        let payload = lowered_meaning::meaning_of_assertion(
            m,
            g,
            "assert_undefined"@,
            "language"@,
            held,
            values::local_form(1),
        );
        body_meaning::meaning_of_named_update(m, g, "language"@, checked, prior);
        let after = given(m, defs, p, itself);
        assert((m.at)(after, (m.key)(values::atom_key("language"@))) == meaning(m, g, checked));
        reveal(semantics::asserts);
        let note = single(m, values::atom_key("assert_undefined"@), payload);
        assert(annotated(m, note, l) == meaning(m, g, checked));
        if (m.is_defined)((m.at)(p, named(m, "language"@))) {
            assert((m.at)(after, named(m, "language"@)) == (m.failure)(note));
        }
    }
    assert(names_language(m, defs, l));
}

} // verus!
