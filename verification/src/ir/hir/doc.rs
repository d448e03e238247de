//! Trees as documents for the pretty printer.
//!
//! The texts of a document are what the `Debug` impls of the tree's parts
//! write. Those impls are derived, so their texts are known by name only.
use vstd::prelude::*;
use vstd::string::StringExecFns;

use crate::doc::{
    doc_append, doc_concat, doc_group, doc_intersperse, doc_items, doc_nest, doc_newline,
    doc_space, doc_text, has_line_break, items_between, items_of, text_doc, DocItem, Document,
    ToDoc,
};
use crate::ir::hir::{SingleExpression, SingleExpressionKind};
use crate::ir::{AFunctionName, AVariable, SSAVariable};
use crate::parser::AtomicLiteral;

verus! {

/// The text that `{:?}` writes of an identifier.
pub uninterp spec fn debug_of_ssa(ssa: SSAVariable) -> Seq<char>;

/// The text that `{:?}` writes of a literal.
pub uninterp spec fn debug_of_literal(literal: AtomicLiteral) -> Seq<char>;

/// The text that `{:?}` writes of a variable with its identifier.
pub uninterp spec fn debug_of_variable(variable: AVariable) -> Seq<char>;

/// The text that `{:?}` writes of a function name with its identifier.
pub uninterp spec fn debug_of_function_name(name: AFunctionName) -> Seq<char>;

/// The text that `{:?}` writes of the kind of a node, with all below it.
pub uninterp spec fn debug_of_kind(kind: SingleExpressionKind) -> Seq<char>;

/// `format!` with `{:?}`: the text that the derived `Debug` impl writes of
/// the identifier.
#[verifier::external_body]
fn ssa_debug(ssa: SSAVariable) -> (r: String)
    ensures
        r@ == debug_of_ssa(ssa),
{
    format!("{:?}", ssa)
}

/// `format!` with `{:?}`: the text that the derived `Debug` impl writes of
/// the literal.
#[verifier::external_body]
fn literal_debug(literal: &AtomicLiteral) -> (r: String)
    ensures
        r@ == debug_of_literal(*literal),
{
    format!("{:?}", literal)
}

/// `format!` with `{:?}`: the text that the derived `Debug` impl writes of
/// the variable.
#[verifier::external_body]
fn variable_debug(variable: &AVariable) -> (r: String)
    ensures
        r@ == debug_of_variable(*variable),
{
    format!("{:?}", variable)
}

/// `format!` with `{:?}`: the text that the derived `Debug` impl writes of
/// the function name.
#[verifier::external_body]
fn function_name_debug(name: &AFunctionName) -> (r: String)
    ensures
        r@ == debug_of_function_name(*name),
{
    format!("{:?}", name)
}

/// `format!` with `{:?}`: the text that the derived `Debug` impl writes of
/// the kind.
#[verifier::external_body]
fn kind_debug(kind: &SingleExpressionKind) -> (r: String)
    ensures
        r@ == debug_of_kind(*kind),
{
    format!("{:?}", kind)
}

/// The one item of a document of one text, or `None` where the text holds a
/// line break.
pub open spec fn text_item(text: Seq<char>) -> Option<Seq<DocItem>> {
    if has_line_break(text) {
        None
    } else {
        Some(seq![DocItem::Text(text)])
    }
}

/// What separates the parts of a call: a comma and a space.
pub open spec fn comma_space() -> Seq<DocItem> {
    seq![DocItem::Text(","@), DocItem::Space]
}

/// The items of `inner` as a group.
pub open spec fn grouped(inner: Seq<DocItem>) -> Seq<DocItem> {
    seq![DocItem::GroupOpen] + inner + seq![DocItem::GroupClose]
}

/// The items of a call across modules: in a group, the word for the call,
/// a space, then, indented by two columns, the module, the name and the
/// arguments in square brackets, with a comma and a space after the module
/// and after the name, and the closing bracket.
pub open spec fn call_items(module: Seq<DocItem>, name: Seq<DocItem>, args: Seq<DocItem>) -> Seq<
    DocItem,
> {
    grouped(
        seq![DocItem::Text("InterModuleCall("@)] + seq![DocItem::Space] + (seq![
            DocItem::NestOpen(2),
        ] + (module + comma_space() + name + comma_space() + (seq![DocItem::Text("["@)] + grouped(
            args,
        ) + seq![DocItem::Text("]"@)])) + seq![DocItem::NestClose]) + seq![DocItem::Text(")"@)],
    )
}

/// The word for a truth value.
pub open spec fn truth_text(b: bool) -> Seq<char> {
    if b {
        "true"@
    } else {
        "false"@
    }
}

impl SingleExpression {
    /// The items of the document of what the node does, or `None` where one
    /// of its texts holds a line break. A literal, a variable and a function
    /// name are one text each; a call across modules is laid out with its
    /// parts; any other kind is one text that says that it has no layout yet.
    pub open spec fn kind_doc(&self) -> Option<Seq<DocItem>>
        decreases self, 0nat,
    {
        match self.kind {
            SingleExpressionKind::Atomic(inner) => text_item(debug_of_literal(inner)),
            SingleExpressionKind::Variable(var) => text_item(debug_of_variable(var)),
            SingleExpressionKind::NamedFunction { name, is_lambda } => text_item(
                debug_of_function_name(name) + " lambda: "@ + truth_text(is_lambda),
            ),
            SingleExpressionKind::InterModuleCall { module, name, args } => if module.node_doc() is Some
                && name.node_doc() is Some && args_fit(args@, args@.len()) {
                Some(
                    call_items(
                        module.node_doc()->Some_0,
                        name.node_doc()->Some_0,
                        args_items(args@, args@.len()),
                    ),
                )
            } else {
                None
            },
            _ => text_item("UNIMPL "@ + debug_of_kind(self.kind)),
        }
    }

    /// The items of the document of the node, or `None` where one of its
    /// texts holds a line break: the node's identifier with a colon, then
    /// what the node does.
    pub open spec fn node_doc(&self) -> Option<Seq<DocItem>>
        decreases self, 1nat,
    {
        if text_item(debug_of_ssa(self.ssa) + ":"@) is Some && self.kind_doc() is Some {
            Some(text_item(debug_of_ssa(self.ssa) + ":"@)->Some_0 + self.kind_doc()->Some_0)
        } else {
            None
        }
    }
}

/// Whether each of the first `n` of `args` has a document.
pub open spec fn args_fit(args: Seq<SingleExpression>, n: nat) -> bool
    decreases args, n,
{
    forall|i: int| 0 <= i < n && i < args.len() ==> (#[trigger] args[i]).node_doc() is Some
}

/// The items of the first `n` arguments of a call: each argument on a line
/// of its own, with a comma and a space between every two.
pub open spec fn args_items(args: Seq<SingleExpression>, n: nat) -> Seq<DocItem>
    decreases args, n,
{
    if n == 0 || n > args.len() {
        Seq::empty()
    } else if n == 1 {
        seq![DocItem::Newline] + args[0].node_doc()->Some_0
    } else {
        args_items(args, (n - 1) as nat) + comma_space() + (seq![DocItem::Newline] + args[n
            - 1].node_doc()->Some_0)
    }
}

/// The documents of arguments, one per argument, have the items of the
/// arguments between them.
proof fn lemma_args_items(docs: Seq<Document>, args: Seq<SingleExpression>, n: nat)
    requires
        n <= args.len(),
        docs.len() == args.len(),
        forall|k: int|
            0 <= k < args.len() ==> doc_items(#[trigger] docs[k]) == seq![DocItem::Newline]
                + args[k].node_doc()->Some_0,
    ensures
        items_between(docs, comma_space(), n) == args_items(args, n),
    decreases n,
{
    if n > 1 {
        lemma_args_items(docs, args, (n - 1) as nat);
    }
}

/// A text without line breaks: none of its characters is one.
proof fn lemma_no_line_break(text: Seq<char>)
    requires
        forall|i: int| 0 <= i < text.len() ==> text[i] != '\n' && text[i] != '\r',
    ensures
        !has_line_break(text),
{
}

/// The document of a comma and a space.
fn comma_space_doc() -> (r: Document)
    ensures
        doc_items(r) == comma_space(),
{
    proof {
        reveal_strlit(",");
        lemma_no_line_break(","@);
    }
    let r = doc_append(doc_text(String::from_str(",")), doc_space());
    assert(doc_items(r) =~= comma_space());
    r
}

impl ToDoc for SingleExpression {
    open spec fn doc(&self) -> Option<Seq<DocItem>> {
        self.node_doc()
    }

    fn to_doc(&self) -> (r: Option<Document>)
        decreases self,
    {
        let main = match &self.kind {
            SingleExpressionKind::Atomic(inner) => text_doc(literal_debug(inner)),
            SingleExpressionKind::Variable(var) => text_doc(variable_debug(var)),
            SingleExpressionKind::NamedFunction { name, is_lambda } => {
                let mut text = function_name_debug(name);
                text.append(" lambda: ");
                if *is_lambda {
                    text.append("true");
                } else {
                    text.append("false");
                }
                text_doc(text)
            },
            SingleExpressionKind::InterModuleCall { module, name, args } => {
                let module_doc = match module.to_doc() {
                    Some(doc) => doc,
                    None => {
                        return None;
                    },
                };
                let name_doc = match name.to_doc() {
                    Some(doc) => doc,
                    None => {
                        return None;
                    },
                };
                let mut arg_docs: Vec<Document> = Vec::new();
                let mut i: usize = 0;
                while i < args.len()
                    invariant
                        i <= args.len(),
                        self.kind is InterModuleCall,
                        self.kind->InterModuleCall_args == *args,
                        arg_docs@.len() == i,
                        forall|k: int|
                            0 <= k < i ==> (#[trigger] args@[k]).node_doc() is Some && doc_items(
                                arg_docs@[k],
                            ) == seq![DocItem::Newline] + args@[k].node_doc()->Some_0,
                    decreases args.len() - i,
                {
                    assert(decreases_to!(self => self.kind));
                    assert(decreases_to!(self.kind => self.kind->InterModuleCall_args));
                    match args[i].to_doc() {
                        Some(doc) => {
                            arg_docs.push(doc_append(doc_newline(), doc));
                        },
                        None => {
                            assert(!args_fit(args@, args@.len())) by {
                                assert(args@[i as int].node_doc() is None);
                            }
                            return None;
                        },
                    }
                    i = i + 1;
                }
                proof {
                    reveal_strlit("[");
                    reveal_strlit("]");
                    reveal_strlit(")");
                    reveal_strlit("InterModuleCall(");
                    lemma_no_line_break("["@);
                    lemma_no_line_break("]"@);
                    lemma_no_line_break(")"@);
                    lemma_no_line_break("InterModuleCall("@);
                    assert(args_fit(args@, args@.len()));
                    assert(arg_docs@.len() == args@.len());
                }
                let ghost arg_views = arg_docs@;
                let between = doc_intersperse(arg_docs, comma_space_doc());
                proof {
                    lemma_args_items(arg_views, args@, args@.len());
                }
                let args_doc = doc_group(between);
                let bracketed = doc_append(
                    doc_append(doc_text(String::from_str("[")), args_doc),
                    doc_text(String::from_str("]")),
                );
                let ghost module_items = doc_items(module_doc);
                let ghost name_items = doc_items(name_doc);
                let ghost bracketed_items = doc_items(bracketed);
                let mut parts: Vec<Document> = Vec::new();
                parts.push(module_doc);
                parts.push(name_doc);
                parts.push(bracketed);
                let ghost part_views = parts@;
                let inner = doc_nest(doc_intersperse(parts, comma_space_doc()), 2);
                proof {
                    reveal_with_fuel(items_between, 4);
                    assert(items_between(part_views, comma_space(), 3) == module_items
                        + comma_space() + name_items + comma_space() + bracketed_items);
                }
                let ghost inner_items = doc_items(inner);
                let mut all: Vec<Document> = Vec::new();
                all.push(doc_text(String::from_str("InterModuleCall(")));
                all.push(doc_space());
                all.push(inner);
                all.push(doc_text(String::from_str(")")));
                let ghost all_views = all@;
                let laid = doc_group(doc_concat(all));
                proof {
                    reveal_with_fuel(items_of, 5);
                    assert(items_of(all_views, 4) =~= seq![DocItem::Text("InterModuleCall("@)]
                        + seq![DocItem::Space] + inner_items + seq![DocItem::Text(")"@)]);
                    assert(doc_items(laid) =~= call_items(
                        module_items,
                        name_items,
                        args_items(args@, args@.len()),
                    ));
                }
                Some(laid)
            },
            _ => {
                let mut text = String::from_str("UNIMPL ");
                text.append(kind_debug(&self.kind).as_str());
                text_doc(text)
            },
        };
        let main_doc = match main {
            Some(doc) => doc,
            None => {
                return None;
            },
        };
        let mut label = ssa_debug(self.ssa);
        label.append(":");
        let label_doc = match text_doc(label) {
            Some(doc) => doc,
            None => {
                return None;
            },
        };
        let ghost label_items = doc_items(label_doc);
        let ghost main_items = doc_items(main_doc);
        let mut both: Vec<Document> = Vec::new();
        both.push(label_doc);
        both.push(main_doc);
        let ghost both_views = both@;
        let r = doc_concat(both);
        proof {
            reveal_with_fuel(items_of, 3);
            assert(items_of(both_views, 2) =~= label_items + main_items);
        }
        Some(r)
    }
}

} // verus!
