//! What holds of the trees of every parse: where nothing was reported no tree holds an error, and
//! no dict holds a literal key twice.
use crate::annotate::{applied, applied_shrinks, collected, drained, with_floating, with_return};
use crate::close::{
    class_metadata, close_case, close_class, close_dict, close_error, close_fn, close_instance,
    close_let, close_match, close_step, close_type, closed, entry_values, final_arms,
    final_bindings, fn_body, form_span, metadata_of, put_closed, put_decl, respan_arms,
    with_methods,
};
use crate::colon::{colon_step, coloned};
use crate::diagnostic::{parse_diag, DiagV};
use crate::direct::{
    annotation_at, dict_from, dict_step, opaque_value, plain_value, property_key, with_value,
    DictStepV,
};
use crate::frame::{form_name, opened_at, plain_err, CallArgV, ErrV, FrameV, TargetV};
use crate::header::{entry_put, key_index_finds};
use crate::laws::{
    closed_keys_differ, coloned_kept, entry_text, keys_differ, keys_in_order, place_kept,
    start_is_in_order, state_in_order, step_keeps_order, taken_kept,
};
use crate::lexer::{tokens_of, TokV, TokenV};
use crate::model::{
    boxed_annot, span_between, AnnV, AnnotV, ArmV, DeclV, DocumentV, DotKeyV, EntryV, ExprV, ItemV,
    NodeV, ParamV, SpanV, Text,
};
use crate::node::{
    annotated_node, annotation_of, error_node, key_text, named_class, positional, positionals,
    string_node, var_node,
};
use crate::open::{case_frame, dict_frame, fn_frame, keyword_frame, let_frame, open_step, pushed};
use crate::operator::{
    annotating, at_step, dot_step, dot_target, ellipsis_step, field_node, field_put, field_step,
    no_pipe_source, pipe_step, piped, placeholder_put,
};
use crate::parser::{file_start, outcome, output_of, parsed, step, step_advances, token_file};
use crate::place::{
    extend_last_arm, let_default, normal_key, params_of, pipe_node, place, placed, type_params_of,
};
use crate::section::{
    annotation_node, document_ended, document_span, header_from, header_step, header_step_advances,
    separator_step, value_from, value_step, value_step_advances, value_taken, without_percents,
    HeaderStepV, ValueStepV,
};
use crate::state::{
    call_func, call_rest, closed_off, failed, given_up, named_args, noted, partial_node,
    positional_args, put_recovered, recovered, respan, settled, start_state, with_node, with_placed,
    StateV, StepV,
};
use crate::stream::{closing_place, is_immediate_at, next_significant, skipped, CommentsV};
use crate::take::{taken, taken_from_stack};
use crate::value::{
    comment_step, dict_with_key, line_step, literal_node, literal_step, with_word_key, word_step,
};
use vstd::prelude::*;

verus! {

/// What may stand in a tree.
pub struct Allow {
    /// Whether errors may stand in it.
    pub errors: bool,
    /// Whether a dict may hold a literal key twice.
    pub twice: bool,
}

/// Whether an expression holds no errors and no dict in it a literal key twice, unless that is
/// allowed.
pub open spec fn sound_expr(x: ExprV, allow: Allow) -> bool
    decreases x,
{
    match x {
        ExprV::Int(_) => true,
        ExprV::U64(_) => true,
        ExprV::Float(_) => true,
        ExprV::StringLiteral { .. } => true,
        ExprV::VarRef { annotation, .. } => match annotation {
            Some(a) => sound_ann(a.ann, allow),
            None => true,
        },
        ExprV::Field { expr, .. } => match expr {
            Some(n) => sound_expr(n.expr, allow),
            None => true,
        },
        ExprV::Dict(entries) => {
            &&& allow.twice || keys_differ(entries)
            &&& forall|i: int|
                #![trigger entries[i]]
                0 <= i < entries.len() ==> (entries[i].key is Some ==> sound_expr(
                    entries[i].key->0.expr,
                    allow,
                )) && sound_expr(entries[i].value.expr, allow)
        },
        ExprV::Call { func, args, named_args, .. } => {
            &&& sound_expr(func.expr, allow)
            &&& forall|i: int|
                #![trigger args[i]]
                0 <= i < args.len() ==> sound_expr(args[i].expr, allow)
            &&& forall|i: int|
                #![trigger named_args[i]]
                0 <= i < named_args.len() ==> sound_expr(named_args[i].value.expr, allow) && (
                named_args[i].annotation is Some ==> sound_ann(
                    named_args[i].annotation->0.ann,
                    allow,
                ))
        },
        ExprV::Fn { return_ann, params, body, .. } => {
            &&& match return_ann {
                Some(a) => sound_ann(a.ann, allow),
                None => true,
            }
            &&& forall|i: int|
                #![trigger params[i]]
                0 <= i < params.len() ==> (params[i].annotation is Some ==> sound_ann(
                    params[i].annotation->0.ann,
                    allow,
                ))
            &&& sound_expr(body.expr, allow)
        },
        ExprV::Sequential(nodes) => forall|i: int|
            #![trigger nodes[i]]
            0 <= i < nodes.len() ==> sound_expr(nodes[i].expr, allow),
        ExprV::Quote(n) => sound_expr(n.expr, allow),
        ExprV::Unquote(n) => sound_expr(n.expr, allow),
        ExprV::UnquoteSplice(n) => sound_expr(n.expr, allow),
        ExprV::Match { scrutinee, arms } => {
            &&& sound_expr(scrutinee.expr, allow)
            &&& forall|i: int|
                #![trigger arms[i]]
                0 <= i < arms.len() ==> {
                    &&& sound_expr(arms[i].pattern.expr, allow)
                    &&& arms[i].let_bindings is Some ==> sound_expr(
                        arms[i].let_bindings->0.expr,
                        allow,
                    )
                    &&& arms[i].guard is Some ==> sound_expr(arms[i].guard->0.expr, allow)
                    &&& forall|j: int|
                        #![trigger arms[i].body[j]]
                        0 <= j < arms[i].body.len() ==> sound_expr(arms[i].body[j].expr, allow)
                }
        },
        ExprV::TypeAssert { annotation, expr } => sound_ann(annotation.ann, allow) && sound_expr(
            expr.expr,
            allow,
        ),
        ExprV::PatternDecl { bindings } => forall|i: int|
            #![trigger bindings[i]]
            0 <= i < bindings.len() ==> sound_expr(bindings[i].expr, allow),
        ExprV::LetDecl { bindings } => forall|i: int|
            #![trigger bindings[i]]
            0 <= i < bindings.len() ==> sound_expr(bindings[i].expr, allow),
        ExprV::Pipe { lhs, rhs, .. } => sound_expr(lhs.expr, allow) && sound_expr(
            rhs.expr,
            allow,
        ),
        ExprV::Placeholder(_, annotation) => match annotation {
            Some(a) => sound_ann(a.ann, allow),
            None => true,
        },
        ExprV::Decl(decl) => sound_decl(*decl, allow),
        ExprV::Error(_) => allow.errors,
    }
}

/// Whether the expressions in an annotation are sound.
pub open spec fn sound_ann(x: AnnV, allow: Allow) -> bool
    decreases x,
{
    match x {
        AnnV::Simple(_) => true,
        AnnV::Quote => true,
        AnnV::Annotated(outer, inner) => sound_ann(*outer, allow) && sound_ann(*inner, allow),
        AnnV::PropertyDict(entries) => forall|i: int|
            #![trigger entries[i]]
            0 <= i < entries.len() ==> (entries[i].key is Some ==> sound_expr(
                entries[i].key->0.expr,
                allow,
            )) && sound_expr(entries[i].value.expr, allow),
    }
}

/// Whether the expressions in a declaration are sound.
pub open spec fn sound_decl(x: DeclV, allow: Allow) -> bool
    decreases x,
{
    match x {
        DeclV::TypeAlias { params, body } => {
            &&& forall|i: int|
                #![trigger params[i]]
                0 <= i < params.len() ==> (params[i].1 is Some ==> sound_ann(
                    params[i].1->0.ann,
                    allow,
                ))
            &&& sound_expr(body.expr, allow)
        },
        DeclV::ClassDecl { methods, determines, resolver, .. } => {
            &&& forall|i: int|
                #![trigger methods[i]]
                0 <= i < methods.len() ==> (methods[i].key is Some ==> sound_expr(
                    methods[i].key->0.expr,
                    allow,
                )) && sound_expr(methods[i].value.expr, allow)
            &&& forall|i: int|
                #![trigger determines[i]]
                0 <= i < determines.len() ==> sound_expr(determines[i].expr, allow)
            &&& resolver is Some ==> sound_expr(resolver->0.expr, allow)
        },
        DeclV::InstanceDecl { class_name, arms } => {
            &&& sound_expr(class_name.expr, allow)
            &&& forall|i: int|
                #![trigger arms[i]]
                0 <= i < arms.len() ==> {
                    &&& sound_expr(arms[i].0.expr, allow)
                    &&& forall|j: int|
                        #![trigger arms[i].1[j]]
                        0 <= j < arms[i].1.len() ==> (arms[i].1[j].key is Some ==> sound_expr(
                            arms[i].1[j].key->0.expr,
                            allow,
                        )) && sound_expr(arms[i].1[j].value.expr, allow)
                }
        },
        DeclV::SyntaxClass { pattern, .. } => sound_expr(pattern.expr, allow),
    }
}

/// Whether an item of a document is sound.
pub open spec fn sound_item(x: ItemV, allow: Allow) -> bool {
    match x {
        ItemV::Expr(n) => sound_expr(n.expr, allow),
        ItemV::Decl(d, _) => sound_decl(d, allow),
    }
}

/// Whether all items of all documents are sound.
pub open spec fn sound_documents(documents: Seq<DocumentV>, allow: Allow) -> bool {
    forall|i: int, j: int|
        0 <= i < documents.len() && 0 <= j < documents[i].items.len() ==> sound_item(
            #[trigger] documents[i].items[j],
            allow,
        )
}

spec fn sound(n: NodeV, e: Allow) -> bool {
    sound_expr(n.expr, e)
}

spec fn sound_opt(n: Option<NodeV>, e: Allow) -> bool {
    n is Some ==> sound_expr(n->0.expr, e)
}

spec fn all_sound(ns: Seq<NodeV>, e: Allow) -> bool {
    forall|i: int| #![trigger ns[i]] 0 <= i < ns.len() ==> sound_expr(ns[i].expr, e)
}

spec fn entries_sound(es: Seq<EntryV>, e: Allow) -> bool {
    forall|i: int|
        #![trigger es[i]]
        0 <= i < es.len() ==> (es[i].key is Some ==> sound_expr(es[i].key->0.expr, e))
            && sound_expr(es[i].value.expr, e)
}

spec fn ann_sound(a: Option<AnnotV>, e: Allow) -> bool {
    a is Some ==> sound_ann(a->0.ann, e)
}

spec fn arg_sound(a: CallArgV, e: Allow) -> bool {
    match a {
        CallArgV::Positional(n) => sound_expr(n.expr, e),
        CallArgV::Named(_, n, ann) => sound_expr(n.expr, e) && ann_sound(ann, e),
    }
}

spec fn args_sound(args: Seq<CallArgV>, e: Allow) -> bool {
    forall|i: int| #![trigger args[i]] 0 <= i < args.len() ==> arg_sound(args[i], e)
}

spec fn params_sound(ps: Seq<ParamV>, e: Allow) -> bool {
    forall|i: int| #![trigger ps[i]] 0 <= i < ps.len() ==> ann_sound(ps[i].annotation, e)
}

spec fn type_params_sound(ps: Seq<(Text, Option<AnnotV>)>, e: Allow) -> bool {
    forall|i: int| #![trigger ps[i]] 0 <= i < ps.len() ==> ann_sound(ps[i].1, e)
}

spec fn arm_sound(a: ArmV, e: Allow) -> bool {
    &&& sound_expr(a.pattern.expr, e)
    &&& sound_opt(a.let_bindings, e)
    &&& sound_opt(a.guard, e)
    &&& all_sound(a.body, e)
}

spec fn arms_sound(arms: Seq<ArmV>, e: Allow) -> bool {
    forall|i: int| #![trigger arms[i]] 0 <= i < arms.len() ==> arm_sound(arms[i], e)
}

spec fn instance_arms_sound(arms: Seq<(NodeV, Seq<EntryV>)>, e: Allow) -> bool {
    forall|i: int|
        #![trigger arms[i]]
        0 <= i < arms.len() ==> sound_expr(arms[i].0.expr, e) && entries_sound(arms[i].1, e)
}

/// The keys in a type form are names, not literals.
spec fn no_literal_keys(es: Seq<EntryV>) -> bool {
    forall|i: int| #![trigger es[i]] 0 <= i < es.len() ==> entry_text(es[i]) is None
}

/// Whether the expressions in an open form are sound.
#[verifier::opaque]
spec fn sound_frame(f: FrameV, e: Allow) -> bool {
    match f {
        FrameV::Dict { entries, pending_key, floating_annotation, .. } => {
            &&& keys_in_order(f)
            &&& entries_sound(entries, e)
            &&& sound_opt(pending_key, e)
            &&& ann_sound(floating_annotation, e)
        },
        FrameV::Call { func, args, pending_key, .. } => {
            &&& sound_opt(func, e)
            &&& args_sound(args, e)
            &&& pending_key matches Some((_, _, ann)) ==> ann_sound(ann, e)
        },
        FrameV::Fn { params, body, return_ann, .. } => {
            &&& params_sound(params, e)
            &&& all_sound(body, e)
            &&& ann_sound(return_ann, e)
        },
        FrameV::TypeAlias { params, type_exprs, pending_key, .. } => {
            &&& type_params_sound(params, e)
            &&& entries_sound(type_exprs, e)
            &&& no_literal_keys(type_exprs)
            &&& sound_opt(pending_key, e)
            &&& pending_key is Some ==> key_text(pending_key->0.expr) is None
        },
        FrameV::Quote { expr, .. } => sound_opt(expr, e),
        FrameV::Unquote { expr, .. } => sound_opt(expr, e),
        FrameV::UnquoteSplice { expr, .. } => sound_opt(expr, e),
        FrameV::SyntaxClass { pattern, pending_key, .. } => sound_opt(pattern, e) && sound_opt(
            pending_key,
            e,
        ),
        FrameV::Match { scrutinee, arms, pending_pattern_expr, pending_pattern, .. } => {
            &&& sound_opt(scrutinee, e)
            &&& arms_sound(arms, e)
            &&& sound_opt(pending_pattern_expr, e)
            &&& pending_pattern matches Some((pattern, guard)) ==> sound_expr(pattern.expr, e)
                && sound_opt(guard, e)
        },
        FrameV::ClassDecl { methods, pending_key, structural_metadata, .. } => {
            &&& entries_sound(methods, e)
            &&& sound_opt(pending_key, e)
            &&& sound_opt(structural_metadata, e)
        },
        FrameV::InstanceDecl {
            class_name,
            arms,
            pending_arm_pattern,
            pending_key,
            current_arm_methods,
            ..
        } => {
            &&& sound_opt(class_name, e)
            &&& instance_arms_sound(arms, e)
            &&& sound_opt(pending_arm_pattern, e)
            &&& sound_opt(pending_key, e)
            &&& entries_sound(current_arm_methods, e)
        },
        FrameV::PatternDecl { bindings, .. } => all_sound(bindings, e),
        FrameV::LetDecl { bindings, pending_key, pending_rhs, .. } => {
            &&& all_sound(bindings, e)
            &&& sound_opt(pending_key, e)
            &&& sound_opt(pending_rhs, e)
        },
        FrameV::CaseDecl { let_bindings, pattern, body, .. } => {
            &&& sound_opt(let_bindings, e)
            &&& sound_opt(pattern, e)
            &&& all_sound(body, e)
        },
        FrameV::Pipe { lhs, .. } => sound_expr(lhs.expr, e),
        FrameV::AnnotationCollect { target, value, .. } => {
            &&& target matches TargetV::Attached(n) ==> sound_expr(n.expr, e)
            &&& sound_opt(value, e)
        },
    }
}

proof fn params_of_sound(bindings: Seq<NodeV>, e: Allow)
    requires
        all_sound(bindings, e),
    ensures
        params_sound(params_of(bindings), e),
        type_params_sound(type_params_of(bindings), e),
    decreases bindings.len(),
{
    if bindings.len() > 0 {
        let n = bindings.len() - 1;
        assert(sound_expr(bindings[n].expr, e));
        assert(all_sound(bindings.drop_last(), e)) by {
            assert forall|i: int| 0 <= i < n implies sound_expr(
                (#[trigger] bindings.drop_last()[i]).expr,
                e,
            ) by {
                assert(sound_expr(bindings[i].expr, e));
            }
        }
        params_of_sound(bindings.drop_last(), e);
    }
}

proof fn let_default_sound(key: NodeV, rhs: NodeV, e: Allow)
    requires
        sound(key, e),
        sound(rhs, e),
    ensures
        let_default(key, rhs) matches Ok(n) ==> sound(n, e),
{
    match let_default(key, rhs) {
        Ok(n) => {
            let ann = n.expr->VarRef_annotation->0.ann;
            let k = string_node("default"@, key.span);
            assert(sound_expr(k.expr, e));
            assert(sound_ann(ann, e));
        },
        Err(_) => {},
    }
}

proof fn place_sound(f: FrameV, node: NodeV, e: Allow)
    requires
        sound_frame(f, e),
        sound(node, e),
    ensures
        sound_frame(place(f, node).0, e),
{
    reveal(sound_frame);
    place_kept(f, node);
    match f {
        FrameV::Dict { pending_key: Some(raw), .. } => {
            let key = normal_key(raw);
            assert(sound_expr(key.expr, e)) by {
                assert(sound_expr(string_node(Seq::empty(), raw.span).expr, e));
            }
            assert(sound(named_class(node, key), e)) by {
                match node.expr {
                    ExprV::Decl(d) => {
                        assert(sound_decl(*d, e));
                        match named_class(node, key).expr {
                            ExprV::Decl(c) => {
                                assert(sound_decl(*c, e));
                            },
                            _ => {},
                        }
                    },
                    _ => {},
                }
            }
        },
        FrameV::Fn { .. } | FrameV::TypeAlias { .. } => {
            match node.expr {
                ExprV::LetDecl { bindings } => {
                    assert(all_sound(bindings, e));
                    params_of_sound(bindings, e);
                },
                _ => {},
            }
        },
        FrameV::LetDecl { pending_key: Some(key), pending_rhs: Some(rhs), .. } => {
            let_default_sound(key, rhs, e);
        },
        FrameV::Match { arms, pending_pattern_expr: Some(earlier), .. } => {
            if arms.len() > 0 {
                assert(arm_sound(arms[arms.len() - 1], e));
                assert(arms_sound(extend_last_arm(arms, earlier), e));
            }
        },
        FrameV::InstanceDecl { .. } => {
            match node.expr {
                ExprV::Dict(entries) => {
                    assert(entries_sound(entries, e));
                },
                _ => {},
            }
        },
        _ => {},
    }
}

proof fn taken_sound(f: FrameV, span: SpanV, e: Allow)
    requires
        sound_frame(f, e),
    ensures
        sound_frame(taken(f, span).0, e),
        taken(f, span).1 matches Ok(Some(n)) ==> sound(n, e),
{
    reveal(sound_frame);
    taken_kept(f, span);
    match f {
        FrameV::Dict { entries, .. } => {
            if entries.len() > 0 {
                assert(entries.last() == entries[entries.len() - 1]);
            }
        },
        FrameV::Call { args, .. } => {
            if args.len() > 0 {
                assert(arg_sound(args[args.len() - 1], e));
            }
        },
        FrameV::TypeAlias { type_exprs, .. } => {
            if type_exprs.len() > 0 {
                assert(type_exprs.last() == type_exprs[type_exprs.len() - 1]);
            }
        },
        FrameV::Match { arms, .. } => {
            if arms.len() > 0 {
                assert(arm_sound(arms[arms.len() - 1], e));
            }
        },
        _ => {},
    }
}

proof fn coloned_sound(f: FrameV, span: SpanV, e: Allow)
    requires
        sound_frame(f, e),
    ensures
        sound_frame(coloned(f, span).0, e),
{
    reveal(sound_frame);
    coloned_kept(f, span);
    match f {
        FrameV::Call { args, .. } => {
            if args.len() > 0 {
                assert(arg_sound(args[args.len() - 1], e));
            }
        },
        FrameV::Dict { entries, .. } => {
            if entries.len() > 0 {
                let v = entries[entries.len() - 1].value;
                match v.expr {
                    ExprV::Dict(inner) => {
                        if inner.len() == 1 {
                            assert(sound_expr(inner[0].value.expr, e));
                        }
                    },
                    _ => {},
                }
            }
        },
        FrameV::InstanceDecl { arms, current_arm_methods, .. } => {
            if arms.len() > 0 {
                assert(entries_sound(arms[arms.len() - 1].1, e));
            }
            assert(instance_arms_sound(with_methods(arms, current_arm_methods), e));
        },
        FrameV::TypeAlias { type_exprs, .. } => {
            if type_exprs.len() > 0 {
                assert(type_exprs.last() == type_exprs[type_exprs.len() - 1]);
            }
        },
        _ => {},
    }
}

#[verifier::opaque]
spec fn sound_stack(stack: Seq<FrameV>, e: Allow) -> bool {
    forall|i: int| 0 <= i < stack.len() ==> sound_frame(#[trigger] stack[i], e)
}

#[verifier::opaque]
spec fn sound_items(items: Seq<ItemV>, e: Allow) -> bool {
    forall|i: int| 0 <= i < items.len() ==> sound_item(#[trigger] items[i], e)
}

proof fn stack_popped(stack: Seq<FrameV>, e: Allow)
    requires
        sound_stack(stack, e),
        stack.len() > 0,
    ensures
        sound_stack(stack.drop_last(), e),
        sound_frame(stack.last(), e),
{
    reveal(sound_stack);
    assert(sound_frame(stack[stack.len() - 1], e));
    assert forall|i: int| 0 <= i < stack.len() - 1 implies sound_frame(
        #[trigger] stack.drop_last()[i],
        e,
    ) by {
        assert(sound_frame(stack[i], e));
    }
}

proof fn stack_pushed(stack: Seq<FrameV>, f: FrameV, e: Allow)
    requires
        sound_stack(stack, e),
        sound_frame(f, e),
    ensures
        sound_stack(stack.push(f), e),
{
    reveal(sound_stack);
    assert forall|i: int| 0 <= i < stack.push(f).len() implies sound_frame(
        #[trigger] stack.push(f)[i],
        e,
    ) by {
        if i < stack.len() {
            assert(sound_frame(stack[i], e));
        }
    }
}

proof fn stack_replaced(stack: Seq<FrameV>, f: FrameV, e: Allow)
    requires
        sound_stack(stack, e),
        stack.len() > 0,
        sound_frame(f, e),
    ensures
        sound_stack(stack.drop_last().push(f), e),
{
    stack_popped(stack, e);
    stack_pushed(stack.drop_last(), f, e);
}

proof fn item_pushed(items: Seq<ItemV>, item: ItemV, e: Allow)
    requires
        sound_items(items, e),
        sound_item(item, e),
    ensures
        sound_items(items.push(item), e),
{
    reveal(sound_items);
    assert forall|i: int| 0 <= i < items.push(item).len() implies sound_item(
        #[trigger] items.push(item)[i],
        e,
    ) by {
        if i < items.len() {
            assert(sound_item(items[i], e));
        }
    }
}

proof fn item_popped(items: Seq<ItemV>, e: Allow)
    requires
        sound_items(items, e),
        items.len() > 0,
    ensures
        sound_items(items.drop_last(), e),
        sound_item(items.last(), e),
{
    reveal(sound_items);
    assert(sound_item(items[items.len() - 1], e));
    assert forall|i: int| 0 <= i < items.len() - 1 implies sound_item(
        #[trigger] items.drop_last()[i],
        e,
    ) by {
        assert(sound_item(items[i], e));
    }
}

proof fn placed_sound(stack: Seq<FrameV>, items: Seq<ItemV>, node: NodeV, e: Allow)
    requires
        sound_stack(stack, e),
        sound_items(items, e),
        sound(node, e),
    ensures
        sound_stack(placed(stack, items, node).stack, e),
        sound_items(placed(stack, items, node).items, e),
    decreases stack.len(),
{
    if stack.len() == 0 {
        item_pushed(items, ItemV::Expr(node), e);
    } else {
        stack_popped(stack, e);
        match stack.last() {
            FrameV::Pipe { lhs, pipe_span } => {
                reveal(sound_frame);
                assert(sound(pipe_node(lhs, pipe_span, node), e));
                placed_sound(stack.drop_last(), items, pipe_node(lhs, pipe_span, node), e);
            },
            f => {
                place_sound(f, node, e);
                stack_replaced(stack, place(f, node).0, e);
            },
        }
    }
}

proof fn annotation_of_sound(n: NodeV, e: Allow)
    requires
        sound(n, e),
    ensures
        sound_ann(annotation_of(n), e),
{
    match n.expr {
        ExprV::VarRef { name, annotation, .. } => {
            assert(sound_ann(AnnV::Simple(name), e));
        },
        ExprV::Dict(entries) => {
            assert(entries_sound(entries, e));
        },
        ExprV::Call { func, args, .. } => {
            let es = seq![positional(*func)] + positionals(args);
            assert forall|i: int| #![trigger es[i]] 0 <= i < es.len() implies es[i].key is None
                && sound_expr(es[i].value.expr, e) by {
                if i > 0 {
                    assert(es[i] == positional(args[i - 1]));
                    assert(sound_expr(args[i - 1].expr, e));
                }
            }
            assert(sound_ann(AnnV::PropertyDict(es), e));
            assert(sound_ann(AnnV::PropertyDict(seq![positional(n)]), e));
        },
        _ => {
            assert(sound_ann(AnnV::PropertyDict(seq![positional(n)]), e));
        },
    }
}

proof fn annotated_node_sound(n: NodeV, ann: AnnotV, e: Allow)
    requires
        sound(n, e),
        sound_ann(ann.ann, e),
    ensures
        sound(annotated_node(n, ann), e),
{
}

proof fn applied_sound(
    stack: Seq<FrameV>,
    items: Seq<ItemV>,
    target: TargetV,
    ann: AnnotV,
    e: Allow,
)
    requires
        sound_stack(stack, e),
        sound_items(items, e),
        target matches TargetV::Attached(n) ==> sound(n, e),
        sound_ann(ann.ann, e),
    ensures
        sound_stack(applied(stack, items, target, ann).stack, e),
        sound_items(applied(stack, items, target, ann).items, e),
{
    match target {
        TargetV::Attached(n) => {
            annotated_node_sound(n, ann, e);
            placed_sound(stack, items, annotated_node(n, ann), e);
        },
        TargetV::Floating => {
            if stack.len() > 0 && stack.last() is Dict {
                stack_popped(stack, e);
                let f = with_floating(stack, ann).0.last();
                assert(sound_frame(f, e)) by {
                    reveal(sound_frame);
                }
                stack_replaced(stack, f, e);
            }
        },
        TargetV::FnReturn => {
            if stack.len() > 0 && stack.last() is Fn {
                stack_popped(stack, e);
                let f = with_return(stack, ann).last();
                assert(sound_frame(f, e)) by {
                    reveal(sound_frame);
                }
                stack_replaced(stack, f, e);
            }
        },
    }
}

proof fn drained_sound(stack: Seq<FrameV>, items: Seq<ItemV>, chained: bool, e: Allow)
    requires
        sound_stack(stack, e),
        sound_items(items, e),
    ensures
        sound_stack(drained(stack, items, chained).stack, e),
        sound_items(drained(stack, items, chained).items, e),
    decreases stack.len(),
{
    if !chained && stack.len() > 0 {
        match stack.last() {
            FrameV::AnnotationCollect { target, value: Some(value), span_start } => {
                let ann = collected(value, span_start);
                let p = applied(stack.drop_last(), items, target, ann);
                applied_shrinks(stack.drop_last(), items, target, ann);
                stack_popped(stack, e);
                assert(sound(value, e) && (target matches TargetV::Attached(n) ==> sound(n, e)))
                    by {
                    reveal(sound_frame);
                }
                annotation_of_sound(value, e);
                applied_sound(stack.drop_last(), items, target, ann, e);
                if p.error is None {
                    drained_sound(p.stack, p.items, chained, e);
                }
            },
            _ => {},
        }
    }
}

proof fn taken_stack_sound(stack: Seq<FrameV>, span: SpanV, e: Allow)
    requires
        sound_stack(stack, e),
    ensures
        sound_stack(taken_from_stack(stack, span).0, e),
        taken_from_stack(stack, span).1 matches Ok(Some(n)) ==> sound(n, e),
{
    if stack.len() > 0 {
        stack_popped(stack, e);
        taken_sound(stack.last(), span, e);
        stack_replaced(stack, taken(stack.last(), span).0, e);
    }
}

/// Whether all expressions in a state are sound.
spec fn sound_state(s: StateV, e: Allow) -> bool {
    &&& sound_stack(s.stack, e)
    &&& sound_items(s.items, e)
    &&& sound_documents(s.documents, e)
}

/// Whether all expressions in a state are sound, where errors are reported if they are not allowed.
spec fn state_sound(s: StateV, e: Allow) -> bool {
    (!e.errors && s.diagnostics.len() > 0) || sound_state(s, e)
}

spec fn step_sound(r: StepV, e: Allow) -> bool {
    r matches StepV::Next(t, _) ==> state_sound(t, e)
}

proof fn put_recovered_sound(s: StateV, node: NodeV, e: Allow)
    requires
        state_sound(s, e),
        sound(node, e) || (!e.errors && s.diagnostics.len() > 0),
    ensures
        state_sound(put_recovered(s, node), e),
{
    if e.errors || s.diagnostics.len() == 0 {
        placed_sound(s.stack, s.items, node, e);
    }
}

proof fn split_args_sound(args: Seq<CallArgV>, e: Allow)
    requires
        args_sound(args, e),
    ensures
        all_sound(positional_args(args), e),
        forall|i: int|
            #![trigger named_args(args)[i]]
            0 <= i < named_args(args).len() ==> sound_expr(named_args(args)[i].value.expr, e)
                && ann_sound(named_args(args)[i].annotation, e),
    decreases args.len(),
{
    if args.len() > 0 {
        assert(arg_sound(args[args.len() - 1], e));
        assert(args_sound(args.drop_last(), e)) by {
            assert forall|i: int| 0 <= i < args.len() - 1 implies arg_sound(
                #[trigger] args.drop_last()[i],
                e,
            ) by {
                assert(arg_sound(args[i], e));
            }
        }
        split_args_sound(args.drop_last(), e);
    }
}

proof fn rest_sound(func: Option<NodeV>, args: Seq<CallArgV>, e: Allow)
    requires
        sound_opt(func, e),
        args_sound(args, e),
    ensures
        call_func(func, args) matches Some(n) ==> sound(n, e),
        args_sound(call_rest(func, args), e),
{
    if args.len() > 0 {
        assert(arg_sound(args[0], e));
        assert forall|i: int| 0 <= i < args.len() - 1 implies arg_sound(
            #[trigger] args.skip(1)[i],
            e,
        ) by {
            assert(arg_sound(args[i + 1], e));
        }
    }
}

proof fn respan_sound(entries: Seq<EntryV>, e: Allow)
    requires
        entries_sound(entries, e),
    ensures
        entries_sound(respan(entries), e),
        keys_differ(entries) ==> keys_differ(respan(entries)),
{
    if keys_differ(entries) {
        closed_keys_differ(entries);
    }
    let after = respan(entries);
    assert forall|i: int| #![trigger after[i]] 0 <= i < after.len() implies (after[i].key
        is Some ==> sound_expr(after[i].key->0.expr, e)) && sound_expr(after[i].value.expr, e) by {
        assert(after[i].value == entries[i].value);
    }
}

proof fn partial_node_sound(f: FrameV, error_span: SpanV, e: Allow)
    requires
        sound_frame(f, e),
        e.errors,
    ensures
        sound(partial_node(f, error_span), e),
{
    reveal(sound_frame);
    let last = error_node(error_span);
    assert(sound(last, e));
    match f {
        FrameV::Dict { entries, .. } => {
            respan_sound(entries, e);
            let es = respan(entries).push(positional(last));
            assert(entries_sound(es, e));
            assert(keys_differ(es)) by {
                assert forall|i: int, j: int|
                    0 <= i < j < es.len() && entry_text(
                        #[trigger] es[i],
                    ) is Some implies entry_text(es[i]) != entry_text(#[trigger] es[j]) by {
                    assert(es[i] == respan(entries)[i]);
                    if j < entries.len() {
                        assert(es[j] == respan(entries)[j]);
                    }
                }
            }
        },
        FrameV::Call { func, args, .. } => {
            rest_sound(func, args, e);
            split_args_sound(call_rest(func, args), e);
        },
        _ => {},
    }
}

proof fn given_up_sound(s: StateV, message: Text, error_span: SpanV, e: Allow)
    requires
        state_sound(s, e),
    ensures
        state_sound(given_up(s, message, error_span), e),
{
    let d = noted(parse_diag(message, error_span), s.stack);
    let recorded = StateV {
        diagnostics: s.diagnostics.push(d),
        stack: if s.stack.len() > 0 {
            s.stack.drop_last()
        } else {
            s.stack
        },
        ..s
    };
    if e.errors {
        assert(sound(error_node(error_span), e));
        if s.stack.len() > 0 {
            stack_popped(s.stack, e);
            partial_node_sound(s.stack.last(), error_span, e);
        }
    }
    put_recovered_sound(
        recorded,
        if s.stack.len() > 0 {
            partial_node(s.stack.last(), error_span)
        } else {
            error_node(error_span)
        },
        e,
    );
}

proof fn failed_sound(t: StateV, x: ErrV, span: SpanV, tokens: Seq<TokV>, from: int, e: Allow)
    requires
        state_sound(t, e),
    ensures
        step_sound(failed(t, x, span, tokens, from), e),
        step_sound(recovered(t, x.message, span, tokens, from), e),
{
    given_up_sound(t, x.message, span, e);
}

proof fn closed_off_sound(t: StateV, span: SpanV, tokens: Seq<TokV>, i: int, e: Allow)
    requires
        state_sound(t, e),
    ensures
        step_sound(closed_off(t, span, tokens, i), e),
{
    let chained = is_immediate_at(tokens, i + 1);
    let d = drained(t.stack, t.items, chained);
    if sound_state(t, e) {
        drained_sound(t.stack, t.items, chained, e);
    }
    let u = with_placed(t, d);
    assert(state_sound(u, e));
    match d.error {
        Some(x) => failed_sound(u, x, span, tokens, i + 1, e),
        None => {},
    }
}

proof fn settled_sound(s: StateV, node: NodeV, span: SpanV, tokens: Seq<TokV>, i: int, e: Allow)
    requires
        sound_state(s, e),
        sound(node, e),
    ensures
        step_sound(settled(s, node, span, tokens, i), e),
{
    let p = placed(s.stack, s.items, node);
    placed_sound(s.stack, s.items, node, e);
    match p.error {
        Some(x) => failed_sound(with_placed(s, p), x, span, tokens, i + 1, e),
        None => closed_off_sound(with_node(s, p, node), span, tokens, i, e),
    }
}

proof fn close_error_sound(s: StateV, x: ErrV, e: Allow)
    requires
        state_sound(s, e),
    ensures
        state_sound(close_error(s, x), e),
{
    assert(e.errors ==> sound(error_node(x.span), e));
    let d = DiagV { help: x.help, ..noted(parse_diag(x.message, x.span), s.stack) };
    put_recovered_sound(
        StateV { diagnostics: s.diagnostics.push(d), ..s },
        error_node(x.span),
        e,
    );
}

proof fn put_closed_sound(s: StateV, node: NodeV, e: Allow)
    requires
        sound_state(s, e),
        sound(node, e),
    ensures
        state_sound(put_closed(s, node), e),
{
    let p = placed(s.stack, s.items, node);
    placed_sound(s.stack, s.items, node, e);
    match p.error {
        Some(x) => close_error_sound(with_placed(s, p), x, e),
        None => {},
    }
}

proof fn put_decl_sound(s: StateV, decl: DeclV, span: SpanV, e: Allow)
    requires
        sound_state(s, e),
        sound_decl(decl, e),
    ensures
        state_sound(put_decl(s, decl, span), e),
{
    if s.stack.len() == 0 {
        item_pushed(s.items, ItemV::Decl(decl, span), e);
    } else {
        let n = NodeV { expr: ExprV::Decl(Box::new(decl)), span };
        assert(sound(n, e));
        put_closed_sound(s, n, e);
    }
}

proof fn entry_values_sound(entries: Seq<EntryV>, e: Allow)
    requires
        entries_sound(entries, e),
    ensures
        all_sound(entry_values(entries), e),
{
    let vs = entry_values(entries);
    assert forall|i: int| #![trigger vs[i]] 0 <= i < vs.len() implies sound_expr(vs[i].expr, e) by {
        assert(sound_expr(entries[i].value.expr, e));
    }
}

proof fn metadata_sound(entries: Seq<EntryV>, e: Allow)
    requires
        entries_sound(entries, e),
    ensures
        all_sound(metadata_of(entries).determines, e),
        sound_opt(metadata_of(entries).resolver, e),
    decreases entries.len(),
{
    if entries.len() > 0 {
        let last = entries[entries.len() - 1];
        assert(sound_expr(last.value.expr, e));
        assert(entries_sound(entries.drop_last(), e)) by {
            assert forall|i: int| #![trigger entries.drop_last()[i]]
                0 <= i < entries.len() - 1 implies (entries.drop_last()[i].key is Some
                ==> sound_expr(entries.drop_last()[i].key->0.expr, e)) && sound_expr(
                entries.drop_last()[i].value.expr,
                e,
            ) by {
                assert(entries.drop_last()[i] == entries[i]);
            }
        }
        metadata_sound(entries.drop_last(), e);
        match last.value.expr {
            ExprV::Dict(inner) => {
                assert(entries_sound(inner, e));
                entry_values_sound(inner, e);
            },
            _ => {},
        }
    }
}

proof fn close_dict_sound(
    s: StateV,
    entries: Seq<EntryV>,
    pending_key: Option<NodeV>,
    floating: Option<AnnotV>,
    span_start: SpanV,
    span: SpanV,
    e: Allow,
)
    requires
        sound_state(s, e),
        keys_differ(entries),
        entries_sound(entries, e),
        ann_sound(floating, e),
    ensures
        state_sound(close_dict(s, entries, pending_key, floating, span_start, span), e),
{
    assert forall|x: ErrV| state_sound(#[trigger] close_error(s, x), e) by {
        close_error_sound(s, x, e);
    }
    assert forall|n: NodeV| sound(n, e) implies state_sound(#[trigger] put_closed(s, n), e) by {
        put_closed_sound(s, n, e);
    }
    respan_sound(entries, e);
    let es = respan(entries);
    let dict = NodeV { expr: ExprV::Dict(es), span: form_span(span_start, span) };
    assert(sound(dict, e));
    if es.len() > 0 {
        assert(sound(es[0].value, e));
        assert(es[0].value == entries[0].value);
    }
}

proof fn close_fn_sound(
    s: StateV,
    params: Seq<ParamV>,
    body: Seq<NodeV>,
    return_ann: Option<AnnotV>,
    span_start: SpanV,
    span: SpanV,
    e: Allow,
)
    requires
        sound_state(s, e),
        params_sound(params, e),
        all_sound(body, e),
        ann_sound(return_ann, e),
    ensures
        state_sound(close_fn(s, params, body, return_ann, span_start, span), e),
{
    assert forall|x: ErrV| state_sound(#[trigger] close_error(s, x), e) by {
        close_error_sound(s, x, e);
    }
    assert forall|n: NodeV| sound(n, e) implies state_sound(#[trigger] put_closed(s, n), e) by {
        put_closed_sound(s, n, e);
    }
    let at = form_span(span_start, span);
    let inner = fn_body(body, at);
    if body.len() > 0 {
        assert(sound_expr(body[0].expr, e));
        assert(sound(inner, e));
        let node = NodeV {
            expr: ExprV::Fn {
                return_ann: boxed_annot(return_ann),
                params,
                body: Box::new(inner),
                desugared: false,
            },
            span: at,
        };
        assert(sound(node, e));
    }
}

proof fn close_type_sound(
    s: StateV,
    params: Seq<(Text, Option<AnnotV>)>,
    type_exprs: Seq<EntryV>,
    pending_key: Option<NodeV>,
    span_start: SpanV,
    span: SpanV,
    e: Allow,
)
    requires
        sound_state(s, e),
        type_params_sound(params, e),
        entries_sound(type_exprs, e),
        no_literal_keys(type_exprs),
    ensures
        state_sound(close_type(s, params, type_exprs, pending_key, span_start, span), e),
{
    assert forall|x: ErrV| state_sound(#[trigger] close_error(s, x), e) by {
        close_error_sound(s, x, e);
    }
    let at = form_span(span_start, span);
    assert forall|d: DeclV| sound_decl(d, e) implies state_sound(#[trigger] put_decl(s, d, at), e)
        by {
        put_decl_sound(s, d, at, e);
    }
    if type_exprs.len() > 0 {
        assert(sound_expr(type_exprs[0].value.expr, e));
        let dict = NodeV { expr: ExprV::Dict(type_exprs), span: at };
        assert(sound(dict, e));
        let body = if type_exprs.len() == 1 && type_exprs[0].key is None {
            type_exprs[0].value
        } else {
            dict
        };
        assert(sound_decl(DeclV::TypeAlias { params, body }, e));
    }
}

proof fn close_match_sound(
    s: StateV,
    scrutinee: Option<NodeV>,
    arms: Seq<ArmV>,
    pending_pattern_expr: Option<NodeV>,
    pending_pattern: Option<(NodeV, Option<NodeV>)>,
    span_start: SpanV,
    span: SpanV,
    e: Allow,
)
    requires
        sound_state(s, e),
        sound_opt(scrutinee, e),
        arms_sound(arms, e),
        sound_opt(pending_pattern_expr, e),
    ensures
        state_sound(
            close_match(
                s,
                scrutinee,
                arms,
                pending_pattern_expr,
                pending_pattern,
                span_start,
                span,
            ),
            e,
        ),
{
    assert forall|x: ErrV| state_sound(#[trigger] close_error(s, x), e) by {
        close_error_sound(s, x, e);
    }
    assert forall|n: NodeV| sound(n, e) implies state_sound(#[trigger] put_closed(s, n), e) by {
        put_closed_sound(s, n, e);
    }
    if scrutinee is Some && arms.len() > 0 {
        let all = final_arms(arms, pending_pattern_expr);
        assert(arm_sound(arms[arms.len() - 1], e));
        assert(arms_sound(all, e));
        let x = ExprV::Match { scrutinee: Box::new(scrutinee->0), arms: all };
        assert(sound_expr(x, e)) by {
            assert forall|i: int| 0 <= i < all.len() implies arm_sound(#[trigger] all[i], e) by {}
        }
    }
}

proof fn close_class_sound(
    s: StateV,
    name: Option<Text>,
    params: Seq<Text>,
    methods: Seq<EntryV>,
    pending_key: Option<NodeV>,
    structural_metadata: Option<NodeV>,
    span_start: SpanV,
    span: SpanV,
    e: Allow,
)
    requires
        sound_state(s, e),
        entries_sound(methods, e),
        sound_opt(structural_metadata, e),
    ensures
        state_sound(
            close_class(
                s,
                name,
                params,
                methods,
                pending_key,
                structural_metadata,
                span_start,
                span,
            ),
            e,
        ),
{
    assert forall|x: ErrV| state_sound(#[trigger] close_error(s, x), e) by {
        close_error_sound(s, x, e);
    }
    let at = form_span(span_start, span);
    assert forall|d: DeclV| sound_decl(d, e) implies state_sound(#[trigger] put_decl(s, d, at), e)
        by {
        put_decl_sound(s, d, at, e);
    }
    respan_sound(methods, e);
    let m = class_metadata(structural_metadata);
    match structural_metadata {
        Some(n) => {
            match n.expr {
                ExprV::Dict(entries) => {
                    assert(entries_sound(entries, e));
                    metadata_sound(entries, e);
                },
                _ => {},
            }
        },
        None => {},
    }
    assert(all_sound(m.determines, e));
    assert(sound_opt(m.resolver, e));
}

proof fn close_instance_sound(
    s: StateV,
    class_name: Option<NodeV>,
    arms: Seq<(NodeV, Seq<EntryV>)>,
    pending_arm_pattern: Option<NodeV>,
    pending_key: Option<NodeV>,
    current_arm_methods: Seq<EntryV>,
    span_start: SpanV,
    span: SpanV,
    e: Allow,
)
    requires
        sound_state(s, e),
        sound_opt(class_name, e),
        instance_arms_sound(arms, e),
        entries_sound(current_arm_methods, e),
    ensures
        state_sound(
            close_instance(
                s,
                class_name,
                arms,
                pending_arm_pattern,
                pending_key,
                current_arm_methods,
                span_start,
                span,
            ),
            e,
        ),
{
    assert forall|x: ErrV| state_sound(#[trigger] close_error(s, x), e) by {
        close_error_sound(s, x, e);
    }
    let at = form_span(span_start, span);
    assert forall|d: DeclV| sound_decl(d, e) implies state_sound(#[trigger] put_decl(s, d, at), e)
        by {
        put_decl_sound(s, d, at, e);
    }
    let with = with_methods(arms, current_arm_methods);
    if arms.len() > 0 {
        assert(entries_sound(arms[arms.len() - 1].1, e));
    }
    assert(instance_arms_sound(with, e));
    let all = respan_arms(with);
    assert forall|i: int| #![trigger all[i]] 0 <= i < all.len() implies sound_expr(all[i].0.expr, e)
        && entries_sound(all[i].1, e) by {
        assert(entries_sound(with[i].1, e));
        respan_sound(with[i].1, e);
    }
    match class_name {
        Some(class_name) => {
            assert(sound_decl(DeclV::InstanceDecl { class_name, arms: all }, e)) by {
                assert forall|i: int| 0 <= i < all.len() implies entries_sound(
                    (#[trigger] all[i]).1,
                    e,
                ) by {}
            }
        },
        None => {},
    }
}

proof fn close_let_sound(
    s: StateV,
    bindings: Seq<NodeV>,
    pending_key: Option<NodeV>,
    pending_rhs: Option<NodeV>,
    span_start: SpanV,
    span: SpanV,
    e: Allow,
)
    requires
        sound_state(s, e),
        all_sound(bindings, e),
        sound_opt(pending_key, e),
        sound_opt(pending_rhs, e),
    ensures
        state_sound(close_let(s, bindings, pending_key, pending_rhs, span_start, span), e),
{
    assert forall|x: ErrV| state_sound(#[trigger] close_error(s, x), e) by {
        close_error_sound(s, x, e);
    }
    assert forall|n: NodeV| sound(n, e) implies state_sound(#[trigger] put_closed(s, n), e) by {
        put_closed_sound(s, n, e);
    }
    match (pending_key, pending_rhs) {
        (Some(key), Some(rhs)) => let_default_sound(key, rhs, e),
        _ => {},
    }
    match final_bindings(bindings, pending_key, pending_rhs) {
        Ok(all) => {
            assert(all_sound(all, e));
            assert(sound_expr(ExprV::LetDecl { bindings: all }, e));
        },
        Err(_) => {},
    }
}

proof fn close_case_sound(
    s: StateV,
    let_bindings: Option<NodeV>,
    pattern: Option<NodeV>,
    body: Seq<NodeV>,
    span_start: SpanV,
    span: SpanV,
    e: Allow,
)
    requires
        sound_state(s, e),
        sound_opt(let_bindings, e),
        sound_opt(pattern, e),
        all_sound(body, e),
    ensures
        state_sound(close_case(s, let_bindings, pattern, body, span_start, span), e),
{
    assert forall|x: ErrV| state_sound(#[trigger] close_error(s, x), e) by {
        close_error_sound(s, x, e);
    }
    if s.stack.len() > 0 && let_bindings is Some && pattern is Some {
        match s.stack.last() {
            FrameV::Match { scrutinee, arms, pending_pattern_expr, pending_pattern, span_start } => {
                let f = FrameV::Match {
                    scrutinee,
                    arms: arms.push(
                        ArmV { pattern: pattern->0, let_bindings, guard: None, body },
                    ),
                    pending_pattern_expr,
                    pending_pattern,
                    span_start,
                };
                stack_popped(s.stack, e);
                assert(sound_frame(f, e)) by {
                    reveal(sound_frame);
                }
                stack_replaced(s.stack, f, e);
            },
            _ => {},
        }
    }
}

proof fn closed_sound(s: StateV, f: FrameV, span: SpanV, e: Allow)
    requires
        sound_state(s, e),
        sound_frame(f, e),
    ensures
        state_sound(closed(s, f, span), e),
{
    reveal(sound_frame);
    assert forall|x: ErrV| state_sound(#[trigger] close_error(s, x), e) by {
        close_error_sound(s, x, e);
    }
    assert forall|n: NodeV| sound(n, e) implies state_sound(#[trigger] put_closed(s, n), e) by {
        put_closed_sound(s, n, e);
    }
    match f {
        FrameV::Dict { entries, pending_key, span_start, floating_annotation, .. } => {
            close_dict_sound(s, entries, pending_key, floating_annotation, span_start, span, e);
        },
        FrameV::Call { func, implied, args, span_start, .. } => {
            rest_sound(func, args, e);
            split_args_sound(call_rest(func, args), e);
            match call_func(func, args) {
                Some(callee) => {
                    let x = ExprV::Call {
                        func: Box::new(callee),
                        args: positional_args(call_rest(func, args)),
                        named_args: named_args(call_rest(func, args)),
                        implied,
                        pipe_span: None,
                    };
                    assert(sound_expr(x, e));
                },
                None => {},
            }
        },
        FrameV::Fn { params, body, return_ann, span_start, .. } => {
            close_fn_sound(s, params, body, return_ann, span_start, span, e);
        },
        FrameV::TypeAlias { params, type_exprs, pending_key, span_start } => {
            close_type_sound(s, params, type_exprs, pending_key, span_start, span, e);
        },
        FrameV::Quote { expr, .. } => {
            match expr {
                Some(n) => {
                    assert(sound_expr(ExprV::Quote(Box::new(n)), e));
                },
                None => {},
            }
        },
        FrameV::Unquote { expr, .. } => {
            match expr {
                Some(n) => {
                    assert(sound_expr(ExprV::Unquote(Box::new(n)), e));
                },
                None => {},
            }
        },
        FrameV::UnquoteSplice { expr, .. } => {
            match expr {
                Some(n) => {
                    assert(sound_expr(ExprV::UnquoteSplice(Box::new(n)), e));
                },
                None => {},
            }
        },
        FrameV::SyntaxClass { name, pattern, message, span_start, .. } => {
            match (name, pattern) {
                (Some(name), Some(pattern)) => {
                    let d = DeclV::SyntaxClass { name, pattern, message };
                    assert(sound_decl(d, e));
                    put_decl_sound(s, d, form_span(span_start, span), e);
                },
                _ => {},
            }
        },
        FrameV::Match { scrutinee, arms, pending_pattern_expr, pending_pattern, span_start } => {
            close_match_sound(
                s,
                scrutinee,
                arms,
                pending_pattern_expr,
                pending_pattern,
                span_start,
                span,
                e,
            );
        },
        FrameV::ClassDecl {
            name,
            params,
            methods,
            pending_key,
            structural_metadata,
            span_start,
        } => {
            close_class_sound(
                s,
                name,
                params,
                methods,
                pending_key,
                structural_metadata,
                span_start,
                span,
                e,
            );
        },
        FrameV::InstanceDecl {
            class_name,
            arms,
            pending_arm_pattern,
            pending_key,
            current_arm_methods,
            span_start,
        } => {
            close_instance_sound(
                s,
                class_name,
                arms,
                pending_arm_pattern,
                pending_key,
                current_arm_methods,
                span_start,
                span,
                e,
            );
        },
        FrameV::PatternDecl { bindings, .. } => {
            assert(sound_expr(ExprV::PatternDecl { bindings }, e));
        },
        FrameV::LetDecl { bindings, pending_key, pending_rhs, span_start } => {
            close_let_sound(s, bindings, pending_key, pending_rhs, span_start, span, e);
        },
        FrameV::CaseDecl { let_bindings, pattern, body, span_start } => {
            close_case_sound(s, let_bindings, pattern, body, span_start, span, e);
        },
        _ => {},
    }
}

proof fn close_step_sound(s: StateV, tokens: Seq<TokV>, i: int, e: Allow)
    requires
        sound_state(s, e),
    ensures
        step_sound(close_step(s, tokens, i), e),
{
    reveal(close_step);
    if s.stack.len() > 0 && !(s.stack.last() is AnnotationCollect) {
        let span = tokens[i].span;
        let f = s.stack.last();
        let popped = StateV {
            stack: s.stack.drop_last(),
            popped: Some((form_name(f), opened_at(f))),
            ..s
        };
        stack_popped(s.stack, e);
        closed_sound(popped, f, span, e);
        closed_off_sound(closed(popped, f, span), span, tokens, i, e);
    }
}

proof fn colon_step_sound(s: StateV, tokens: Seq<TokV>, i: int, e: Allow)
    requires
        sound_state(s, e),
    ensures
        step_sound(colon_step(s, tokens, i), e),
{
    reveal(colon_step);
    let span = tokens[i].span;
    if s.stack.len() > 0 {
        let (f, error) = coloned(s.stack.last(), span);
        let after = StateV { stack: s.stack.drop_last().push(f), ..s };
        stack_popped(s.stack, e);
        coloned_sound(s.stack.last(), span, e);
        stack_replaced(s.stack, f, e);
        match error {
            Some(x) => failed_sound(after, x, span, tokens, i + 1, e),
            None => {},
        }
    }
}

proof fn literal_step_sound(s: StateV, node: NodeV, tokens: Seq<TokV>, i: int, e: Allow)
    requires
        sound_state(s, e),
        sound(node, e),
    ensures
        step_sound(literal_step(s, node, tokens, i), e),
{
    reveal(literal_step);
    let span = tokens[i].span;
    settled_sound(s, node, span, tokens, i, e);
    if s.stack.len() > 0 {
        match dict_with_key(s.stack.last(), node) {
            Some(f) => {
                stack_popped(s.stack, e);
                assert(sound_frame(f, e)) by {
                    reveal(sound_frame);
                }
                stack_replaced(s.stack, f, e);
            },
            None => {},
        }
    }
}

proof fn word_step_sound(s: StateV, word: Text, tokens: Seq<TokV>, i: int, e: Allow)
    requires
        sound_state(s, e),
    ensures
        step_sound(word_step(s, word, tokens, i), e),
{
    reveal(word_step);
    let span = tokens[i].span;
    let node = var_node(word, false, span);
    assert(sound(node, e));
    assert(sound(string_node(word, span), e));
    settled_sound(s, node, span, tokens, i, e);
    if s.stack.len() > 0 {
        match with_word_key(s.stack.last(), word, span) {
            Some(f) => {
                stack_popped(s.stack, e);
                assert(sound_frame(f, e)) by {
                    reveal(sound_frame);
                }
                stack_replaced(s.stack, f, e);
            },
            None => {},
        }
    }
}

proof fn field_put_sound(t: StateV, node: NodeV, tokens: Seq<TokV>, k: int, e: Allow)
    requires
        sound_state(t, e),
        sound(node, e),
    ensures
        step_sound(field_put(t, node, tokens, k), e),
{
    let p = placed(t.stack, t.items, node);
    placed_sound(t.stack, t.items, node, e);
    match p.error {
        Some(x) => failed_sound(with_placed(t, p), x, node.span, tokens, k + 1, e),
        None => {
            let chained = is_immediate_at(tokens, k + 1);
            let d = drained(p.stack, p.items, chained);
            drained_sound(p.stack, p.items, chained, e);
            match d.error {
                Some(x) => failed_sound(with_placed(t, d), x, node.span, tokens, k + 1, e),
                None => {},
            }
        },
    }
}

proof fn dot_step_sound(s: StateV, tokens: Seq<TokV>, i: int, e: Allow)
    requires
        sound_state(s, e),
    ensures
        step_sound(dot_step(s, tokens, i), e),
{
    reveal(dot_step);
    let span = tokens[i].span;
    taken_stack_sound(s.stack, span, e);
    if s.stack.len() == 0 && s.items.len() > 0 {
        item_popped(s.items, e);
    }
    match dot_target(s, span) {
        Err(_) => {},
        Ok((t, target)) => {
            let k = next_significant(tokens, i + 1);
            let after = StateV { comments: skipped(tokens, i + 1, t.comments), ..t };
            assert forall|x: ErrV, from: int|
                step_sound(#[trigger] failed(after, x, span, tokens, from), e) by {
                failed_sound(after, x, span, tokens, from, e);
            }
            assert forall|node: NodeV|
                sound(node, e) implies step_sound(#[trigger] field_put(after, node, tokens, k), e)
                by {
                field_put_sound(after, node, tokens, k, e);
            }
            assert forall|field: DotKeyV, at: SpanV|
                sound(#[trigger] field_node(target, field, span, at), e) by {}
            assert(step_sound(field_step(t, target, tokens, i), e));
        },
    }
}

proof fn piped_sound(t: StateV, n: NodeV, span: SpanV, e: Allow)
    requires
        sound_state(t, e),
        sound(n, e),
    ensures
        sound_state(piped(t, n, span), e),
{
    let f = FrameV::Pipe { lhs: n, pipe_span: span };
    assert(sound_frame(f, e)) by {
        reveal(sound_frame);
    }
    stack_pushed(t.stack, f, e);
}

proof fn pipe_step_sound(s: StateV, tokens: Seq<TokV>, i: int, e: Allow)
    requires
        sound_state(s, e),
    ensures
        step_sound(pipe_step(s, tokens, i), e),
{
    reveal(pipe_step);
    let span = tokens[i].span;
    if s.stack.len() == 0 {
        if s.items.len() > 0 && s.items.last() is Expr {
            item_popped(s.items, e);
            piped_sound(
                StateV { items: s.items.drop_last(), ..s },
                s.items.last()->Expr_0,
                span,
                e,
            );
        }
    } else {
        let (stack, source) = taken_from_stack(s.stack, span);
        let after = StateV { stack, ..s };
        taken_stack_sound(s.stack, span, e);
        match source {
            Ok(Some(n)) => piped_sound(after, n, span, e),
            Ok(None) => failed_sound(
                after,
                plain_err(no_pipe_source(), span),
                span,
                tokens,
                i + 1,
                e,
            ),
            Err(x) => failed_sound(after, x, span, tokens, i + 1, e),
        }
    }
}

proof fn annotating_sound(t: StateV, target: TargetV, span: SpanV, e: Allow)
    requires
        sound_state(t, e),
        target matches TargetV::Attached(n) ==> sound(n, e),
    ensures
        sound_state(annotating(t, target, span), e),
{
    let f = FrameV::AnnotationCollect { target, value: None, span_start: span };
    assert(sound_frame(f, e)) by {
        reveal(sound_frame);
    }
    stack_pushed(t.stack, f, e);
}

proof fn at_step_sound(s: StateV, tokens: Seq<TokV>, i: int, e: Allow)
    requires
        sound_state(s, e),
    ensures
        step_sound(at_step(s, tokens, i), e),
{
    reveal(at_step);
    let span = tokens[i].span;
    annotating_sound(s, TargetV::Floating, span, e);
    let (stack, target) = taken_from_stack(s.stack, span);
    let after = StateV { stack, ..s };
    taken_stack_sound(s.stack, span, e);
    match target {
        Err(_) => {},
        Ok(Some(n)) => annotating_sound(after, TargetV::Attached(n), span, e),
        Ok(None) => {
            annotating_sound(after, TargetV::Floating, span, e);
            if stack.len() == 0 && s.items.len() > 0 && s.items.last() is Expr {
                item_popped(s.items, e);
                annotating_sound(
                    StateV { items: s.items.drop_last(), ..after },
                    TargetV::Attached(s.items.last()->Expr_0),
                    span,
                    e,
                );
            }
        },
    }
}

proof fn dict_from_sound(
    tokens: Seq<TokV>,
    start: SpanV,
    i: int,
    entries: Seq<EntryV>,
    waiting: bool,
    comments: CommentsV,
    e: Allow,
)
    requires
        entries_sound(entries, e),
    ensures
        dict_from(tokens, start, i, entries, waiting, comments) matches Ok(d) ==> entries_sound(
            d.entries,
            e,
        ),
    decreases tokens.len() - i,
{
    let j = next_significant(tokens, i);
    let c = skipped(tokens, i, comments);
    let close = closing_place(tokens, j + 1, 1);
    if i < 0 || j < i || j >= tokens.len() {
    } else if tokens[j].tok is OpenBracket {
        if j < close < tokens.len() {
            let value = opaque_value(tokens[j].span, tokens[close].span);
            assert(sound(value, e));
            with_value_sound(entries, waiting, value, e);
            dict_from_sound(
                tokens,
                start,
                close + 1,
                with_value(entries, waiting, value),
                false,
                c,
                e,
            );
        }
    } else {
        match plain_value(tokens[j]) {
            Some(value) => {
                assert(sound(value, e));
                with_value_sound(entries, waiting, value, e);
            },
            None => {},
        }
        reveal(dict_step);
        match dict_step(tokens[j], entries, waiting) {
            DictStepV::More { entries: after, waiting: waits } => {
                assert(entries_sound(after, e)) by {
                    if tokens[j].tok is Colon && entries.len() > 0 && entries.last().key is None {
                        let last = entries[entries.len() - 1];
                        let key = property_key(last.value);
                        assert(sound_expr(key.expr, e));
                        assert(after == entries.drop_last().push(EntryV { key: Some(key), ..last }));
                        assert forall|k: int| #![trigger after[k]]
                            0 <= k < after.len() implies (after[k].key is Some ==> sound_expr(
                            after[k].key->0.expr,
                            e,
                        )) && sound_expr(after[k].value.expr, e) by {
                            assert(sound_expr(entries[k].value.expr, e));
                        }
                    }
                }
                dict_from_sound(tokens, start, j + 1, after, waits, c, e);
            },
            _ => {},
        }
    }
}

proof fn with_value_sound(entries: Seq<EntryV>, waiting: bool, value: NodeV, e: Allow)
    requires
        entries_sound(entries, e),
        sound(value, e),
    ensures
        entries_sound(with_value(entries, waiting, value), e),
{
    if entries.len() > 0 {
        assert(sound_expr(entries[entries.len() - 1].value.expr, e));
    }
}

proof fn annotation_at_sound(tokens: Seq<TokV>, i: int, comments: CommentsV, e: Allow)
    ensures
        annotation_at(tokens, i, comments) matches Ok(read) ==> sound_ann(read.ann.ann, e),
    decreases tokens.len() - i,
{
    let j = next_significant(tokens, i + 1);
    let c = skipped(tokens, i + 1, comments);
    if 0 <= i < tokens.len() && (tokens[i].tok is At || tokens[i].tok is ImmediateAt) && i < j
        < tokens.len() {
        let at = tokens[j].span;
        match tokens[j].tok {
            TokenV::Identifier(name) => {
                assert(sound_ann(AnnV::Simple(name), e));
                assert(sound(var_node(name, false, at), e));
                annotation_of_sound(var_node(name, false, at), e);
                annotation_at_sound(tokens, j + 1, c, e);
            },
            TokenV::OpenBracket => {
                dict_from_sound(tokens, at, j + 1, Seq::empty(), false, c, e);
                match dict_from(tokens, at, j + 1, Seq::empty(), false, c) {
                    Ok(d) => {
                        assert(sound_ann(AnnV::PropertyDict(d.entries), e));
                        if i < d.next && is_immediate_at(tokens, d.next) {
                            annotation_at_sound(tokens, d.next, d.comments, e);
                        }
                    },
                    Err(_) => {},
                }
            },
            _ => {},
        }
    }
}

proof fn ellipsis_step_sound(s: StateV, tokens: Seq<TokV>, i: int, e: Allow)
    requires
        sound_state(s, e),
    ensures
        step_sound(ellipsis_step(s, tokens, i), e),
{
    reveal(ellipsis_step);
    let k = next_significant(tokens, i + 1);
    let c = skipped(tokens, i + 1, s.comments);
    annotation_at_sound(tokens, k + 1, c, e);
    assert forall|t: StateV, node: NodeV, next: int|
        sound_state(t, e) && sound(node, e) implies step_sound(
        #[trigger] placeholder_put(t, node, tokens, next),
        e,
    ) by {
        let p = placed(t.stack, t.items, node);
        placed_sound(t.stack, t.items, node, e);
        match p.error {
            Some(x) => failed_sound(with_placed(t, p), x, node.span, tokens, next, e),
            None => {},
        }
    }
}

proof fn open_step_sound(s: StateV, tokens: Seq<TokV>, i: int, e: Allow)
    requires
        sound_state(s, e),
    ensures
        step_sound(open_step(s, tokens, i), e),
{
    reveal(open_step);
    let span = tokens[i].span;
    assert forall|t: StateV, f: FrameV|
        sound_state(t, e) && sound_frame(f, e) implies sound_state(#[trigger] pushed(t, f), e) by {
        stack_pushed(t.stack, f, e);
    }
    reveal(sound_frame);
    assert forall|word: Text, at: SpanV| sound(#[trigger] var_node(word, false, at), e) by {}
    assert(sound_frame(fn_frame(span), e));
    assert(sound_frame(dict_frame(span), e));
    assert(sound_frame(let_frame(span), e));
    assert(sound_frame(case_frame(span), e));
    assert forall|word: Text| #[trigger] keyword_frame(word, span) matches Some(f) ==> sound_frame(
        f,
        e,
    ) by {}
}

spec fn all_open_sound(open: Seq<(Seq<EntryV>, SpanV)>, e: Allow) -> bool {
    forall|k: int| #![trigger open[k]] 0 <= k < open.len() ==> entries_sound(open[k].0, e)
}

proof fn value_taken_sound(
    open: Seq<(Seq<EntryV>, SpanV)>,
    node: NodeV,
    next: int,
    comments: CommentsV,
    e: Allow,
)
    requires
        all_open_sound(open, e),
        sound(node, e),
    ensures
        match value_taken(open, node, next, comments) {
            ValueStepV::More(after, _, _) => all_open_sound(after, e),
            ValueStepV::Found(n, _, _) => sound(n, e),
            ValueStepV::Failed(_) => true,
        },
{
    if open.len() > 0 {
        assert(entries_sound(open[open.len() - 1].0, e));
    }
}

proof fn value_from_sound(
    tokens: Seq<TokV>,
    key: Text,
    start: int,
    i: int,
    open: Seq<(Seq<EntryV>, SpanV)>,
    comments: CommentsV,
    e: Allow,
)
    requires
        e.twice,
        all_open_sound(open, e),
    ensures
        value_from(tokens, key, start, i, open, comments) matches Ok(v) ==> sound(v.node, e),
    decreases tokens.len() - i,
{
    if 0 <= i < tokens.len() {
        let at = tokens[i].span;
        value_step_advances(tokens, key, start, i, open, comments);
        match plain_value(tokens[i]) {
            Some(node) => {
                assert(sound(node, e));
                value_taken_sound(open, node, i + 1, comments, e);
            },
            None => {
                match tokens[i].tok {
                    TokenV::CloseBracket | TokenV::Colon => {
                        if open.len() > 0 {
                            let last = open[open.len() - 1];
                            let dict = NodeV {
                                expr: ExprV::Dict(last.0),
                                span: span_between(last.1, at, at.file),
                            };
                            assert(entries_sound(last.0, e));
                            assert(sound(dict, e));
                            assert(all_open_sound(open.drop_last(), e));
                            value_taken_sound(open.drop_last(), dict, i + 1, comments, e);
                            if last.0.len() > 0 {
                                assert(sound_expr(last.0[last.0.len() - 1].value.expr, e));
                            }
                        }
                    },
                    TokenV::At | TokenV::ImmediateAt => {
                        annotation_at_sound(tokens, i, comments, e);
                        match annotation_at(tokens, i, comments) {
                            Ok(read) => {
                                assert(sound_expr(ExprV::Dict(Seq::empty()), e));
                                assert(sound(annotation_node(read.ann, at), e));
                                value_taken_sound(
                                    open,
                                    annotation_node(read.ann, at),
                                    read.next,
                                    read.comments,
                                    e,
                                );
                            },
                            Err(_) => {},
                        }
                    },
                    _ => {},
                }
            },
        }
        match value_step(tokens, key, start, i, open, comments) {
            ValueStepV::More(after, next, c) => {
                assert(all_open_sound(after, e));
                value_from_sound(tokens, key, start, next, after, c, e);
            },
            _ => {},
        }
    }
}

/// Whether the values in a header are sound.
pub open spec fn sound_header(header: Seq<(Text, NodeV)>, allow: Allow) -> bool {
    forall|i: int|
        #![trigger header[i]]
        0 <= i < header.len() ==> sound_expr(header[i].1.expr, allow)
}

/// Whether the values in all headers are sound.
pub open spec fn sound_headers(documents: Seq<DocumentV>, allow: Allow) -> bool {
    forall|i: int|
        0 <= i < documents.len() ==> sound_header((#[trigger] documents[i]).header, allow)
}

proof fn entry_put_sound(header: Seq<(Text, NodeV)>, key: Text, node: NodeV, e: Allow)
    requires
        sound_header(header, e),
        sound(node, e),
    ensures
        sound_header(entry_put(header, key, node), e),
{
    key_index_finds(header, key);
}

/// What reading a header leaves alone.
spec fn only_header(s: StateV, t: StateV) -> bool {
    &&& t.stack == s.stack
    &&& t.items == s.items
    &&& t.documents == s.documents
    &&& t.diagnostics == s.diagnostics
}

proof fn header_step_sound(s: StateV, tokens: Seq<TokV>, i: int, e: Allow)
    requires
        e.twice,
        sound_header(s.header, e),
    ensures
        match header_step(s, tokens, i) {
            HeaderStepV::More(t, _) => only_header(s, t) && sound_header(t.header, e),
            HeaderStepV::Done(t, _) => only_header(s, t) && sound_header(t.header, e),
            HeaderStepV::Failed(_) => true,
        },
{
    match tokens[i].tok {
        TokenV::Identifier(word) => {
            value_from_sound(tokens, word, i + 2, i + 2, Seq::empty(), s.comments, e);
            match value_from(tokens, word, i + 2, i + 2, Seq::empty(), s.comments) {
                Ok(v) => entry_put_sound(s.header, word, v.node, e),
                Err(_) => {},
            }
            let title = string_node(without_percents(word), tokens[i].span);
            assert(sound(title, e));
            entry_put_sound(s.header, "name"@, title, e);
            let named = entry_put(s.header, "name"@, title);
            annotation_at_sound(tokens, i + 1, s.comments, e);
            match annotation_at(tokens, i + 1, s.comments) {
                Ok(read) => {
                    let node = annotation_node(read.ann, tokens[i + 1].span);
                    assert(sound_expr(ExprV::Dict(Seq::empty()), e));
                    assert(sound(node, e));
                    entry_put_sound(named, "output-annotation"@, node, e);
                },
                Err(_) => {},
            }
        },
        _ => {},
    }
}

proof fn header_from_sound(s: StateV, tokens: Seq<TokV>, i: int, e: Allow)
    requires
        e.twice,
        sound_header(s.header, e),
    ensures
        header_from(s, tokens, i) matches StepV::Next(t, _) ==> only_header(s, t) && sound_header(
            t.header,
            e,
        ),
    decreases tokens.len() - i,
{
    if 0 <= i < tokens.len() {
        header_step_advances(s, tokens, i);
        header_step_sound(s, tokens, i, e);
        match header_step(s, tokens, i) {
            HeaderStepV::More(t, next) => header_from_sound(t, tokens, next, e),
            _ => {},
        }
    }
}

/// What the headers hold: no errors, but a dict may hold a literal key twice.
spec fn header_allow() -> Allow {
    Allow { errors: false, twice: true }
}

/// Whether all headers in a state are sound.
spec fn headers_sound(s: StateV) -> bool {
    sound_header(s.header, header_allow()) && sound_headers(s.documents, header_allow())
}

proof fn ended_sound(s: StateV, span: SpanV, e: Allow)
    requires
        headers_sound(s),
    ensures
        headers_sound(document_ended(s, span)),
        sound_state(s, e) ==> sound_state(document_ended(s, span), e),
{
    let t = document_ended(s, span);
    assert forall|k: int| 0 <= k < t.documents.len() implies sound_header(
        (#[trigger] t.documents[k]).header,
        header_allow(),
    ) by {
        if k < s.documents.len() {
            assert(t.documents[k] == s.documents[k]);
        }
    }
    if sound_state(s, e) {
        reveal(sound_items);
        assert forall|k: int, j: int|
            0 <= k < t.documents.len() && 0 <= j < t.documents[k].items.len() implies sound_item(
            #[trigger] t.documents[k].items[j],
            e,
        ) by {
            if k < s.documents.len() {
                assert(t.documents[k] == s.documents[k]);
                assert(sound_item(s.documents[k].items[j], e));
            } else {
                assert(sound_item(s.items[j], e));
            }
        }
    }
}

/// Whether a step leads to a state whose expressions are sound.
spec fn step_keeps(r: StepV, e: Allow) -> bool {
    r matches StepV::Next(t, _) ==> state_sound(t, e) && headers_sound(t)
}

proof fn step_keeps_sound(s: StateV, tokens: Seq<TokV>, i: int, e: Allow)
    requires
        state_in_order(s),
        state_sound(s, e),
        headers_sound(s),
        0 <= i < tokens.len(),
    ensures
        step_keeps(step(s, tokens, i), e),
{
    step_keeps_order(s, tokens, i);
    reveal(step);
    if tokens[i].tok is DocSeparator {
        reveal(separator_step);
        let span = document_span(s.items, tokens[i].span);
        ended_sound(s, span, e);
        header_from_sound(document_ended(s, span), tokens, i + 1, header_allow());
    } else if sound_state(s, e) {
        match tokens[i].tok {
            TokenV::OpenBracket => open_step_sound(s, tokens, i, e),
            TokenV::CloseBracket => close_step_sound(s, tokens, i, e),
            TokenV::Colon => colon_step_sound(s, tokens, i, e),
            TokenV::Comment(_) => {
                reveal(comment_step);
            },
            TokenV::Newline | TokenV::Semicolon => {
                reveal(line_step);
            },
            TokenV::Dot => dot_step_sound(s, tokens, i, e),
            TokenV::Pipe => pipe_step_sound(s, tokens, i, e),
            TokenV::At | TokenV::ImmediateAt => at_step_sound(s, tokens, i, e),
            TokenV::Ellipsis => ellipsis_step_sound(s, tokens, i, e),
            TokenV::Identifier(word) => word_step_sound(s, word, tokens, i, e),
            TokenV::Let => word_step_sound(s, "let"@, tokens, i, e),
            TokenV::Case => word_step_sound(s, "case"@, tokens, i, e),
            _ => {
                let node = literal_node(tokens[i])->0;
                assert(sound(node, e));
                literal_step_sound(s, node, tokens, i, e);
            },
        }
    }
}

proof fn outcome_sound(s: StateV, tokens: Seq<TokV>, i: int, e: Allow)
    requires
        state_in_order(s),
        state_sound(s, e),
        headers_sound(s),
    ensures
        outcome(s, tokens, i) matches Ok(o) ==> {
            &&& (!e.errors && o.diagnostics.len() > 0) || sound_documents(o.documents, e)
            &&& sound_headers(o.documents, header_allow())
        },
    decreases tokens.len() - i,
{
    if 0 <= i < tokens.len() {
        step_advances(s, tokens, i);
        step_keeps_order(s, tokens, i);
        step_keeps_sound(s, tokens, i, e);
        match step(s, tokens, i) {
            StepV::Next(after, next) => outcome_sound(after, tokens, next, e),
            StepV::Fatal(_) => {},
        }
    } else if s.stack.len() == 0 {
        ended_sound(s, file_start(token_file(tokens)), e);
    }
}

proof fn parsed_sound(source: Text, file: Text, e: Allow)
    ensures
        parsed(source, file) matches Ok(o) ==> {
            &&& (!e.errors && o.diagnostics.len() > 0) || sound_documents(o.documents, e)
            &&& sound_headers(o.documents, header_allow())
        },
{
    start_is_in_order();
    reveal(sound_stack);
    reveal(sound_items);
    match tokens_of(source, file) {
        Ok(tokens) => outcome_sound(start_state(), tokens, 0, e),
        Err(_) => {},
    }
}

/// Where nothing is reported, no error stands anywhere in the documents: not in their items, and
/// not in their headers.
pub proof fn no_error_is_silent(source: Text, file: Text)
    ensures
        ({
            let o = output_of(parsed(source, file));
            o.diagnostics.len() == 0 ==> sound_documents(
                o.documents,
                Allow { errors: false, twice: false },
            ) && sound_headers(o.documents, Allow { errors: false, twice: true })
        }),
{
    parsed_sound(source, file, Allow { errors: false, twice: false });
}

/// No dict in the items of the documents holds a literal key twice, whatever is reported.
pub proof fn dict_keys_differ(source: Text, file: Text)
    ensures
        sound_documents(
            output_of(parsed(source, file)).documents,
            Allow { errors: true, twice: false },
        ),
{
    parsed_sound(source, file, Allow { errors: true, twice: false });
}

} // verus!
