//! The closed function that formats diagnostics by default.
//!
//! What a terminal shows is the policy of a client rather than of the
//! compiler. Callers receive an ordinary closed function.

use vstd::prelude::*;
use crate::compiler_values::{apply_builtin, evaluate_closed};
use crate::text;
use crate::values;
use crate::values::{
    key_steps, one, two, BindingId, Builtin, Form, ResolvedExpr, ResolverContext, Shape, Value,
};

verus! {

/// The formatter, built once.
#[derive(Debug, PartialEq, Eq)]
pub struct CachedDiagnosticFormatter(pub Value);

/// A field of a local, by its path.
pub open spec fn field_form(local: nat, path: Seq<Seq<char>>) -> Form {
    values::access_form(values::local_form(local), values::steps_form(path))
}

/// Code joined by `++`, from the left.
pub open spec fn append_form(items: Seq<Form>) -> Form
    decreases items.len(),
{
    if items.len() == 0 {
        values::embedded_form(values::shaped(Shape::List, Seq::empty()))
    } else if items.len() == 1 {
        items[0]
    } else {
        values::call_form(Builtin::Append, seq![append_form(items.drop_last()), items.last()])
    }
}

pub open spec fn newline_form() -> Form {
    values::embedded_form(values::text_form("\n"@))
}

/// The lines after the first, each on a line of its own, indented.
pub open spec fn continuations_form() -> Form {
    values::call_form(
        Builtin::ListConcat,
        seq![
            values::call_form(
                Builtin::ListMap,
                seq![
                    values::lambda_form(
                        seq![2],
                        append_form(
                            seq![
                                newline_form(),
                                field_form(0, seq!["viewer"@, "indent"@]),
                                values::local_form(2),
                            ],
                        ),
                    ),
                    values::call_form(Builtin::ListTail, seq![values::local_form(1)]),
                ],
            ),
        ],
    )
}

/// The lines of context, each on a line of its own.
pub open spec fn context_form() -> Form {
    values::call_form(
        Builtin::ListConcat,
        seq![
            values::call_form(
                Builtin::ListMap,
                seq![
                    values::lambda_form(
                        seq![3],
                        append_form(seq![newline_form(), values::local_form(3)]),
                    ),
                    field_form(0, seq!["viewer"@, "context_lines"@]),
                ],
            ),
        ],
    )
}

/// A function from a diagnostic to the text that shows it: its header, the
/// lines of its message, and its context.
pub open spec fn formatter_form() -> Form {
    values::lazy_form(
        values::lambda_form(
            seq![0],
            values::apply_form(
                values::lambda_form(
                    seq![1],
                    values::call_form(
                        Builtin::Anno,
                        seq![
                            values::embedded_form(values::atom_form("binary"@)),
                            append_form(
                                seq![
                                    field_form(0, seq!["viewer"@, "header"@]),
                                    values::call_form(
                                        Builtin::ListHead,
                                        seq![values::local_form(1)],
                                    ),
                                    continuations_form(),
                                    context_form(),
                                    newline_form(),
                                ],
                            ),
                        ],
                    ),
                ),
                seq![
                    values::call_form(
                        Builtin::TextLines,
                        seq![field_form(0, seq!["msg"@, "text"@])],
                    ),
                ],
            ),
        ),
    )
}

/// Code joined by `++`, from the left.
fn append(items: Vec<ResolvedExpr>) -> (code: ResolvedExpr)
    ensures
        values::code_form(code) == append_form(values::codes_form(items@)),
    decreases items.len(),
{
    let ghost all = items@;
    let ghost forms = values::codes_form(all);
    let mut front = items;
    match front.pop() {
        None => {
            let none: Vec<Value> = Vec::new();
            proof {
                values::no_forms();
                assert(none@ =~= Seq::empty());
                assert(all =~= Seq::empty());
            }
            ResolvedExpr::embedded(Value::list(none))
        },
        Some(last) => {
            proof {
                assert(front@ =~= all.drop_last());
                assert(front@.push(last) =~= all);
                values::codes_form_push(front@, last);
                assert(forms.drop_last() =~= values::codes_form(front@));
                assert(forms.last() == values::code_form(last));
                assert(forms.len() == all.len());
            }
            if front.len() == 0 {
                last
            } else {
                apply_builtin(Builtin::Append, two(append(front), last))
            }
        },
    }
}

/// A field of a local, by a path of two names.
fn field(local: BindingId, first: &str, second: &str) -> (code: ResolvedExpr)
    ensures
        values::code_form(code) == field_form(local.0 as nat, seq![first@, second@]),
{
    let mut path: Vec<String> = Vec::new();
    path.push(first.to_owned());
    path.push(second.to_owned());
    assert(text::texts(path@) =~= seq![first@, second@]);
    ResolvedExpr::access(ResolvedExpr::local(local), key_steps(&path))
}

fn newline() -> (code: ResolvedExpr)
    ensures
        values::code_form(code) == newline_form(),
{
    ResolvedExpr::embedded(Value::binary_from_text("\n"))
}

fn only(id: BindingId) -> (params: Vec<BindingId>)
    ensures
        values::ids(params@) == seq![id.0 as nat],
{
    let mut params: Vec<BindingId> = Vec::new();
    params.push(id);
    assert(values::ids(params@) =~= seq![id.0 as nat]);
    params
}

/// One more item of code.
fn with(items: Vec<ResolvedExpr>, item: ResolvedExpr) -> (more: Vec<ResolvedExpr>)
    ensures
        values::codes_form(more@) == values::codes_form(items@).push(values::code_form(item)),
{
    let mut more = items;
    proof {
        values::codes_form_push(more@, item);
    }
    more.push(item);
    more
}

pub fn build() -> (value: Value)
    ensures
        values::value_form(value) == formatter_form(),
{
    let mut locals = ResolverContext::new();
    let diagnostic = locals.push_internal_binding("<diagnostic>");
    let lines = locals.push_internal_binding("<diagnostic-lines>");
    let continuation_line = locals.push_internal_binding("<diagnostic-continuation-line>");
    let context_line = locals.push_internal_binding("<diagnostic-context-line>");
    let parts = with(
        two(newline(), field(diagnostic, "viewer", "indent")),
        ResolvedExpr::local(continuation_line),
    );
    assert(values::codes_form(parts@) =~= seq![
        newline_form(),
        field_form(0, seq!["viewer"@, "indent"@]),
        values::local_form(2),
    ]);
    let continuation = append(parts);
    let mapped = apply_builtin(
        Builtin::ListMap,
        two(
            ResolvedExpr::lambda(only(continuation_line), continuation),
            apply_builtin(Builtin::ListTail, one(ResolvedExpr::local(lines))),
        ),
    );
    let indented_continuations = apply_builtin(Builtin::ListConcat, one(mapped));
    assert(values::code_form(indented_continuations) == continuations_form());
    let context = append(two(newline(), ResolvedExpr::local(context_line)));
    let mapped_context = apply_builtin(
        Builtin::ListMap,
        two(
            ResolvedExpr::lambda(only(context_line), context),
            field(diagnostic, "viewer", "context_lines"),
        ),
    );
    let context_lines = apply_builtin(Builtin::ListConcat, one(mapped_context));
    assert(values::code_form(context_lines) == context_form());
    let head = apply_builtin(Builtin::ListHead, one(ResolvedExpr::local(lines)));
    let parts = with(
        with(
            with(two(field(diagnostic, "viewer", "header"), head), indented_continuations),
            context_lines,
        ),
        newline(),
    );
    assert(values::codes_form(parts@) =~= seq![
        field_form(0, seq!["viewer"@, "header"@]),
        values::call_form(Builtin::ListHead, seq![values::local_form(1)]),
        continuations_form(),
        context_form(),
        newline_form(),
    ]);
    let formatted = append(parts);
    let binary = apply_builtin(
        Builtin::Anno,
        two(ResolvedExpr::embedded(Value::atom("binary")), formatted),
    );
    let text_lines = apply_builtin(Builtin::TextLines, one(field(diagnostic, "msg", "text")));
    let with_lines = ResolvedExpr::apply(
        ResolvedExpr::lambda(only(lines), binary),
        one(text_lines),
    );
    evaluate_closed(ResolvedExpr::lambda(only(diagnostic), with_lines))
}

pub fn cached() -> (formatter: CachedDiagnosticFormatter)
    ensures
        values::value_form(formatter.0) == formatter_form(),
{
    CachedDiagnosticFormatter(build())
}

/// The value of a formatter that was built.
pub fn value(formatter: &CachedDiagnosticFormatter) -> (value: Value)
    requires
        values::value_form(formatter.0) == formatter_form(),
    ensures
        values::value_form(value) == formatter_form(),
{
    formatter.0.copy()
}

} // verus!
