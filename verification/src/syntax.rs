//! What the analysis reads of Rust source text.
//!
//! Parsing and walking is the work of `syn`. The types here hold, as plain
//! values, the parts of a syntax tree that call-site extraction and subject
//! resolution look at: expressions by their shape, `use` trees, and a source
//! file as the list of events that a walk over it meets.
//!
//! The results of parsing are named ([`parsed_expr`], [`parsed_block`],
//! [`walked_source`]): they depend on the text alone, and everything that is
//! computed from them is stated in terms of these names.

use crate::text::count_of;
use quote::ToTokens;
use syn::spanned::Spanned;
use vstd::prelude::*;

verus! {

broadcast use vstd::seq_lib::group_seq_properties;

// ---------------------------------------------------------------------
// expressions
// ---------------------------------------------------------------------

/// An expression, by the shapes that the analysis tells apart.
#[derive(Debug)]
pub enum ExprNode {
    /// A string literal, by its value.
    Str(String),
    /// A byte string literal, by its value.
    ByteStr(Vec<u8>),
    /// Any other literal.
    OtherLit,
    /// A path, by the identifiers of its segments.
    Path(Vec<String>),
    /// A macro invocation: the identifiers of its path, and its tokens as text.
    Macro { path: Vec<String>, tokens: String },
    /// `receiver.method(..)`.
    MethodCall { receiver: Box<ExprNode>, method: String },
    /// `func(..)`.
    Call { func: Box<ExprNode> },
    /// A field access.
    Field,
    /// `&inner` or `&mut inner`.
    Reference(Box<ExprNode>),
    /// `(inner)`.
    Paren(Box<ExprNode>),
    /// An expression in invisible delimiters.
    Group(Box<ExprNode>),
    /// Any other expression.
    Other,
}

/// The model of an [`ExprNode`].
pub enum ExprView {
    Str(Seq<char>),
    ByteStr(Seq<u8>),
    OtherLit,
    Path(Seq<Seq<char>>),
    Macro { path: Seq<Seq<char>>, tokens: Seq<char> },
    MethodCall { receiver: Box<ExprView>, method: Seq<char> },
    Call { func: Box<ExprView> },
    Field,
    Reference(Box<ExprView>),
    Paren(Box<ExprView>),
    Group(Box<ExprView>),
    Other,
}

impl ExprNode {
    pub open spec fn model(&self) -> ExprView
        decreases self,
    {
        match self {
            ExprNode::Str(s) => ExprView::Str(s@),
            ExprNode::ByteStr(b) => ExprView::ByteStr(b@),
            ExprNode::OtherLit => ExprView::OtherLit,
            ExprNode::Path(p) => ExprView::Path(p.deep_view()),
            ExprNode::Macro { path, tokens } => ExprView::Macro {
                path: path.deep_view(),
                tokens: tokens@,
            },
            ExprNode::MethodCall { receiver, method } => ExprView::MethodCall {
                receiver: Box::new(receiver.model()),
                method: method@,
            },
            ExprNode::Call { func } => ExprView::Call { func: Box::new(func.model()) },
            ExprNode::Field => ExprView::Field,
            ExprNode::Reference(e) => ExprView::Reference(Box::new(e.model())),
            ExprNode::Paren(e) => ExprView::Paren(Box::new(e.model())),
            ExprNode::Group(e) => ExprView::Group(Box::new(e.model())),
            ExprNode::Other => ExprView::Other,
        }
    }
}

impl DeepView for ExprNode {
    type V = ExprView;

    open spec fn deep_view(&self) -> ExprView {
        self.model()
    }
}

/// A statement of a block.
#[derive(Debug)]
pub enum StmtNode {
    /// An expression, with or without a semicolon.
    Expr(ExprNode),
    /// `return` with what it returns, with or without a semicolon.
    Return(Option<ExprNode>),
    /// A local binding, by what it is initialised with.
    Let(Option<ExprNode>),
    /// A macro statement.
    Macro(ExprNode),
    /// An item.
    Other,
}

/// The model of a [`StmtNode`].
pub enum StmtView {
    Expr(ExprView),
    Return(Option<ExprView>),
    Let(Option<ExprView>),
    Macro(ExprView),
    Other,
}

impl DeepView for StmtNode {
    type V = StmtView;

    open spec fn deep_view(&self) -> StmtView {
        match self {
            StmtNode::Expr(e) => StmtView::Expr(e.deep_view()),
            StmtNode::Return(e) => StmtView::Return(e.deep_view()),
            StmtNode::Let(e) => StmtView::Let(e.deep_view()),
            StmtNode::Macro(e) => StmtView::Macro(e.deep_view()),
            StmtNode::Other => StmtView::Other,
        }
    }
}

// ---------------------------------------------------------------------
// source files
// ---------------------------------------------------------------------

/// The tree of a `use` item.
#[derive(Debug)]
pub enum UseNode {
    /// `ident::tree`.
    Path { ident: String, tree: Box<UseNode> },
    /// `ident`.
    Name(String),
    /// `ident as other`, by `ident`.
    Rename(String),
    /// `*`.
    Glob,
    /// `{a, b, ..}`.
    Group(Vec<UseNode>),
}

/// The model of a [`UseNode`].
pub enum UseView {
    Path { ident: Seq<char>, tree: Box<UseView> },
    Name(Seq<char>),
    Rename(Seq<char>),
    Glob,
    Group(Seq<UseView>),
}

impl UseNode {
    pub open spec fn model(&self) -> UseView
        decreases self,
    {
        match self {
            UseNode::Path { ident, tree } => UseView::Path {
                ident: ident@,
                tree: Box::new(tree.model()),
            },
            UseNode::Name(s) => UseView::Name(s@),
            UseNode::Rename(s) => UseView::Rename(s@),
            UseNode::Glob => UseView::Glob,
            UseNode::Group(items) => UseView::Group(
                Seq::new(
                    items@.len(),
                    |i: int|
                        if 0 <= i < items@.len() {
                            items@[i].model()
                        } else {
                            UseView::Glob
                        },
                ),
            ),
        }
    }
}

impl DeepView for UseNode {
    type V = UseView;

    open spec fn deep_view(&self) -> UseView {
        self.model()
    }
}

/// An item of an `impl` block.
#[derive(Debug)]
pub enum ImplNode {
    /// A method: its name, where the name stands (1-based line, 0-based
    /// column), and its body as text.
    Fn { name: String, line: usize, column: usize, body: String },
    /// Any other item.
    Other,
}

/// The model of an [`ImplNode`].
pub enum ImplItemView {
    Fn { name: Seq<char>, line: int, column: int, body: Seq<char> },
    Other,
}

impl DeepView for ImplNode {
    type V = ImplItemView;

    open spec fn deep_view(&self) -> ImplItemView {
        match self {
            ImplNode::Fn { name, line, column, body } => ImplItemView::Fn {
                name: name@,
                line: *line as int,
                column: *column as int,
                body: body@,
            },
            ImplNode::Other => ImplItemView::Other,
        }
    }
}

/// An argument of a call: its shape and its text.
#[derive(Debug)]
pub struct ArgNode {
    pub tree: ExprNode,
    pub source: String,
}

/// The model of an [`ArgNode`].
pub struct ArgView {
    pub tree: ExprView,
    pub source: Seq<char>,
}

impl DeepView for ArgNode {
    type V = ArgView;

    open spec fn deep_view(&self) -> ArgView {
        ArgView { tree: self.tree.deep_view(), source: self.source@ }
    }
}

/// What a walk over a source file meets, in source order. An `Enter` and its
/// `Leave` enclose what is met inside.
#[derive(Debug)]
pub enum SourceEvent {
    /// A `use` item.
    Use(UseNode),
    EnterMod { name: String },
    LeaveMod,
    /// An `impl` block: the type as text, and the items.
    EnterImpl { self_type: String, items: Vec<ImplNode> },
    LeaveImpl,
    /// A method of the `impl` block last entered, with its body as text.
    EnterMethod { body: String },
    LeaveMethod,
    /// A method of a trait, with its default body as text if it has one.
    EnterTraitMethod { default: Option<String> },
    LeaveTraitMethod,
    /// A `const` item: its name, where the name stands, and its value as text.
    Const { name: String, line: usize, column: usize, value: String },
    /// A free function: its name, where the name stands, and its body as text.
    EnterFn { name: String, line: usize, column: usize, body: String },
    LeaveFn,
    /// `_.method(args)`, and where it starts (1-based line, 0-based column).
    MethodCall { method: String, line: usize, column: usize, args: Vec<ArgNode> },
    /// `func(args)`, and where it starts.
    Call { func: ExprNode, line: usize, column: usize, args: Vec<ArgNode> },
}

/// The model of a [`SourceEvent`].
pub enum EventView {
    Use(UseView),
    EnterMod { name: Seq<char> },
    LeaveMod,
    EnterImpl { self_type: Seq<char>, items: Seq<ImplItemView> },
    LeaveImpl,
    EnterMethod { body: Seq<char> },
    LeaveMethod,
    EnterTraitMethod { default: Option<Seq<char>> },
    LeaveTraitMethod,
    Const { name: Seq<char>, line: int, column: int, value: Seq<char> },
    EnterFn { name: Seq<char>, line: int, column: int, body: Seq<char> },
    LeaveFn,
    MethodCall { method: Seq<char>, line: int, column: int, args: Seq<ArgView> },
    Call { func: ExprView, line: int, column: int, args: Seq<ArgView> },
}

impl DeepView for SourceEvent {
    type V = EventView;

    open spec fn deep_view(&self) -> EventView {
        match self {
            SourceEvent::Use(tree) => EventView::Use(tree.deep_view()),
            SourceEvent::EnterMod { name } => EventView::EnterMod { name: name@ },
            SourceEvent::LeaveMod => EventView::LeaveMod,
            SourceEvent::EnterImpl { self_type, items } => EventView::EnterImpl {
                self_type: self_type@,
                items: items.deep_view(),
            },
            SourceEvent::LeaveImpl => EventView::LeaveImpl,
            SourceEvent::EnterMethod { body } => EventView::EnterMethod { body: body@ },
            SourceEvent::LeaveMethod => EventView::LeaveMethod,
            SourceEvent::EnterTraitMethod { default } => EventView::EnterTraitMethod {
                default: default.deep_view(),
            },
            SourceEvent::LeaveTraitMethod => EventView::LeaveTraitMethod,
            SourceEvent::Const { name, line, column, value } => EventView::Const {
                name: name@,
                line: *line as int,
                column: *column as int,
                value: value@,
            },
            SourceEvent::EnterFn { name, line, column, body } => EventView::EnterFn {
                name: name@,
                line: *line as int,
                column: *column as int,
                body: body@,
            },
            SourceEvent::LeaveFn => EventView::LeaveFn,
            SourceEvent::MethodCall { method, line, column, args } => EventView::MethodCall {
                method: method@,
                line: *line as int,
                column: *column as int,
                args: args.deep_view(),
            },
            SourceEvent::Call { func, line, column, args } => EventView::Call {
                func: func.deep_view(),
                line: *line as int,
                column: *column as int,
                args: args.deep_view(),
            },
        }
    }
}

/// A source file: what a walk over it meets.
#[derive(Debug)]
pub struct SourceFile {
    pub events: Vec<SourceEvent>,
}

/// The model of a [`SourceFile`].
pub struct SourceView {
    pub events: Seq<EventView>,
}

impl DeepView for SourceFile {
    type V = SourceView;

    open spec fn deep_view(&self) -> SourceView {
        SourceView { events: self.events.deep_view() }
    }
}

// ---------------------------------------------------------------------
// the outside syntax tree
// ---------------------------------------------------------------------

#[verifier::external_type_specification]
#[verifier::external_body]
pub struct ExSynExpr(syn::Expr);

#[verifier::external_type_specification]
#[verifier::external_body]
pub struct ExSynLit(syn::Lit);

#[verifier::external_type_specification]
#[verifier::external_body]
pub struct ExSynPath(syn::Path);

#[verifier::external_type_specification]
#[verifier::external_body]
pub struct ExSynStmt(syn::Stmt);

#[verifier::external_type_specification]
#[verifier::external_body]
pub struct ExSynUseTree(syn::UseTree);

#[verifier::external_type_specification]
#[verifier::external_body]
pub struct ExSynItemUse(syn::ItemUse);

#[verifier::external_type_specification]
#[verifier::external_body]
pub struct ExSynImplItem(syn::ImplItem);

#[verifier::external_type_specification]
#[verifier::external_body]
pub struct ExSynItemMod(syn::ItemMod);

#[verifier::external_type_specification]
#[verifier::external_body]
pub struct ExSynItemImpl(syn::ItemImpl);

#[verifier::external_type_specification]
#[verifier::external_body]
pub struct ExSynImplItemFn(syn::ImplItemFn);

#[verifier::external_type_specification]
#[verifier::external_body]
pub struct ExSynTraitItemFn(syn::TraitItemFn);

#[verifier::external_type_specification]
#[verifier::external_body]
pub struct ExSynItemConst(syn::ItemConst);

#[verifier::external_type_specification]
#[verifier::external_body]
pub struct ExSynItemFn(syn::ItemFn);

#[verifier::external_type_specification]
#[verifier::external_body]
pub struct ExSynExprMethodCall(syn::ExprMethodCall);

#[verifier::external_type_specification]
#[verifier::external_body]
pub struct ExSynExprCall(syn::ExprCall);

/// The literals of `syn`, told apart and taken by value.
#[verifier::external_body]
fn lit_node(lit: &syn::Lit) -> ExprNode {
    match lit {
        syn::Lit::Str(s) => ExprNode::Str(s.value()),
        syn::Lit::ByteStr(b) => ExprNode::ByteStr(b.value()),
        _ => ExprNode::OtherLit,
    }
}

/// The identifiers of a path of `syn`.
#[verifier::external_body]
fn path_idents(path: &syn::Path) -> Vec<String> {
    path.segments.iter().map(|s| s.ident.to_string()).collect()
}

/// The expressions of `syn`, told apart.
#[verifier::external_body]
fn expr_node(expr: &syn::Expr) -> ExprNode {
    match expr {
        syn::Expr::Lit(l) => lit_node(&l.lit),
        syn::Expr::Path(p) => ExprNode::Path(path_idents(&p.path)),
        syn::Expr::Macro(m) => macro_node(&m.mac.path, m.mac.tokens.to_string()),
        syn::Expr::MethodCall(m) => method_node(&m.receiver, m.method.to_string()),
        syn::Expr::Call(c) => ExprNode::Call { func: Box::new(expr_node(&c.func)) },
        syn::Expr::Field(_) => ExprNode::Field,
        other => wrapper_node(other),
    }
}

/// The expressions of `syn` that hold one other expression as it is.
#[verifier::external_body]
fn wrapper_node(expr: &syn::Expr) -> ExprNode {
    match expr {
        syn::Expr::Reference(r) => ExprNode::Reference(Box::new(expr_node(&r.expr))),
        syn::Expr::Paren(p) => ExprNode::Paren(Box::new(expr_node(&p.expr))),
        syn::Expr::Group(g) => ExprNode::Group(Box::new(expr_node(&g.expr))),
        _ => ExprNode::Other,
    }
}

fn macro_node(path: &syn::Path, tokens: String) -> (out: ExprNode)
    ensures
        out matches ExprNode::Macro { path: _, tokens: t } && t == tokens,
{
    ExprNode::Macro { path: path_idents(path), tokens }
}

fn method_node(receiver: &syn::Expr, method: String) -> (out: ExprNode)
    ensures
        out matches ExprNode::MethodCall { receiver: _, method: m } && m == method,
{
    ExprNode::MethodCall { receiver: Box::new(expr_node(receiver)), method }
}

/// The statements of `syn`, told apart.
#[verifier::external_body]
fn stmt_node(stmt: &syn::Stmt) -> StmtNode {
    match stmt {
        syn::Stmt::Expr(syn::Expr::Return(r), _) => {
            StmtNode::Return(r.expr.as_ref().map(|e| expr_node(e)))
        },
        syn::Stmt::Expr(e, _) => StmtNode::Expr(expr_node(e)),
        syn::Stmt::Local(l) => StmtNode::Let(l.init.as_ref().map(|i| expr_node(&i.expr))),
        syn::Stmt::Macro(m) => StmtNode::Macro(macro_node(&m.mac.path, m.mac.tokens.to_string())),
        syn::Stmt::Item(_) => StmtNode::Other,
    }
}

/// The `use` trees of `syn`.
#[verifier::external_body]
fn use_node(tree: &syn::UseTree) -> UseNode {
    match tree {
        syn::UseTree::Path(p) => UseNode::Path {
            ident: p.ident.to_string(),
            tree: Box::new(use_node(&p.tree)),
        },
        syn::UseTree::Name(n) => UseNode::Name(n.ident.to_string()),
        syn::UseTree::Rename(r) => UseNode::Rename(r.ident.to_string()),
        syn::UseTree::Glob(_) => UseNode::Glob,
        syn::UseTree::Group(g) => UseNode::Group(g.items.iter().map(use_node).collect()),
    }
}

/// The `impl` items of `syn`, told apart. The body is the text that `quote`
/// gives for it; line and column are those of the name's span.
#[verifier::external_body]
fn impl_node(item: &syn::ImplItem) -> ImplNode {
    match item {
        syn::ImplItem::Fn(f) => ImplNode::Fn {
            name: f.sig.ident.to_string(),
            line: f.sig.ident.span().start().line,
            column: f.sig.ident.span().start().column,
            body: f.block.to_token_stream().to_string(),
        },
        _ => ImplNode::Other,
    }
}

/// An argument expression of `syn`: its shape, and the text that `quote` gives for
/// it.
#[verifier::external_body]
fn arg_node(arg: &syn::Expr) -> ArgNode {
    ArgNode { tree: expr_node(arg), source: arg.to_token_stream().to_string() }
}

/// Writes down what `syn::visit` meets.
struct Collector {
    events: Vec<SourceEvent>,
}

/// Each method notes the node and lets `syn::visit` walk on inside it.
impl<'ast> syn::visit::Visit<'ast> for Collector {
    #[verifier::external_body]
    fn visit_item_use(&mut self, item: &'ast syn::ItemUse) {
        self.events.push(SourceEvent::Use(use_node(&item.tree)));
        syn::visit::visit_item_use(self, item);
    }

    #[verifier::external_body]
    fn visit_item_mod(&mut self, item: &'ast syn::ItemMod) {
        self.events.push(SourceEvent::EnterMod { name: item.ident.to_string() });
        syn::visit::visit_item_mod(self, item);
        self.events.push(SourceEvent::LeaveMod);
    }

    #[verifier::external_body]
    fn visit_item_impl(&mut self, item: &'ast syn::ItemImpl) {
        self.events.push(
            SourceEvent::EnterImpl {
                self_type: item.self_ty.to_token_stream().to_string(),
                items: item.items.iter().map(impl_node).collect(),
            },
        );
        syn::visit::visit_item_impl(self, item);
        self.events.push(SourceEvent::LeaveImpl);
    }

    #[verifier::external_body]
    fn visit_impl_item_fn(&mut self, item: &'ast syn::ImplItemFn) {
        self.events.push(
            SourceEvent::EnterMethod { body: item.block.to_token_stream().to_string() },
        );
        syn::visit::visit_impl_item_fn(self, item);
        self.events.push(SourceEvent::LeaveMethod);
    }

    #[verifier::external_body]
    fn visit_trait_item_fn(&mut self, item: &'ast syn::TraitItemFn) {
        self.events.push(
            SourceEvent::EnterTraitMethod {
                default: item.default.as_ref().map(|b| b.to_token_stream().to_string()),
            },
        );
        syn::visit::visit_trait_item_fn(self, item);
        self.events.push(SourceEvent::LeaveTraitMethod);
    }

    #[verifier::external_body]
    fn visit_item_const(&mut self, item: &'ast syn::ItemConst) {
        self.events.push(
            SourceEvent::Const {
                name: item.ident.to_string(),
                line: item.ident.span().start().line,
                column: item.ident.span().start().column,
                value: item.expr.to_token_stream().to_string(),
            },
        );
        syn::visit::visit_item_const(self, item);
    }

    #[verifier::external_body]
    fn visit_item_fn(&mut self, item: &'ast syn::ItemFn) {
        self.events.push(
            SourceEvent::EnterFn {
                name: item.sig.ident.to_string(),
                line: item.sig.ident.span().start().line,
                column: item.sig.ident.span().start().column,
                body: item.block.to_token_stream().to_string(),
            },
        );
        syn::visit::visit_item_fn(self, item);
        self.events.push(SourceEvent::LeaveFn);
    }

    #[verifier::external_body]
    fn visit_expr_method_call(&mut self, call: &'ast syn::ExprMethodCall) {
        self.events.push(
            SourceEvent::MethodCall {
                method: call.method.to_string(),
                line: call.span().start().line,
                column: call.span().start().column,
                args: call.args.iter().map(arg_node).collect(),
            },
        );
        syn::visit::visit_expr_method_call(self, call);
    }

    #[verifier::external_body]
    fn visit_expr_call(&mut self, call: &'ast syn::ExprCall) {
        self.events.push(
            SourceEvent::Call {
                func: expr_node(&call.func),
                line: call.span().start().line,
                column: call.span().start().column,
                args: call.args.iter().map(arg_node).collect(),
            },
        );
        syn::visit::visit_expr_call(self, call);
    }
}

// ---------------------------------------------------------------------
// parsing
// ---------------------------------------------------------------------

/// What `syn` makes of a text that should be an expression: the expression, or
/// the message of its error.
pub uninterp spec fn parsed_expr(text: Seq<char>) -> Result<ExprView, Seq<char>>;

/// What `syn` makes of a text that should be a block: its statements, or the
/// message of its error.
pub uninterp spec fn parsed_block(text: Seq<char>) -> Result<Seq<StmtView>, Seq<char>>;

/// What `syn` makes of the text of a source file: what a walk over it meets, or
/// the message of its error.
pub uninterp spec fn walked_source(text: Seq<char>) -> Result<SourceView, Seq<char>>;

/// How many `!` the macro invocation at the head of an expression takes up: its
/// own and those among its tokens. 0 when there is none at the head.
pub open spec fn head_bangs(e: ExprView) -> nat
    decreases e,
{
    match e {
        ExprView::Macro { path, tokens } => 1 + count_of(tokens, '!'),
        ExprView::MethodCall { receiver, method } => head_bangs(*receiver),
        ExprView::Reference(x) => head_bangs(*x),
        ExprView::Paren(x) => head_bangs(*x),
        ExprView::Group(x) => head_bangs(*x),
        _ => 0,
    }
}

/// `syn::parse_str::<syn::Expr>`. Its result depends on the text alone. Each
/// macro invocation is written with a `!` of its own in the text, and its
/// tokens print with no `!` that the text does not have.
#[verifier::external_body]
pub(crate) fn parse_expr(text: &str) -> (out: Result<ExprNode, String>)
    ensures
        match out {
            Ok(e) => parsed_expr(text@) == Ok::<ExprView, Seq<char>>(e.deep_view()) && head_bangs(
                e.deep_view(),
            ) <= count_of(text@, '!'),
            Err(m) => parsed_expr(text@) == Err::<ExprView, Seq<char>>(m@),
        },
{
    match syn::parse_str::<syn::Expr>(text) {
        Ok(e) => Ok(expr_node(&e)),
        Err(err) => Err(err.to_string()),
    }
}

/// `syn::parse_str::<syn::Block>`. Its result depends on the text alone.
#[verifier::external_body]
pub(crate) fn parse_block(text: &str) -> (out: Result<Vec<StmtNode>, String>)
    ensures
        match out {
            Ok(b) => parsed_block(text@) == Ok::<Seq<StmtView>, Seq<char>>(b.deep_view()),
            Err(m) => parsed_block(text@) == Err::<Seq<StmtView>, Seq<char>>(m@),
        },
{
    match syn::parse_str::<syn::Block>(text) {
        Ok(b) => Ok(b.stmts.iter().map(stmt_node).collect()),
        Err(err) => Err(err.to_string()),
    }
}

/// `syn::parse_file`, and `syn::visit` over the result. What comes out depends
/// on the text alone.
#[verifier::external_body]
pub(crate) fn walk_source(text: &str) -> (out: Result<SourceFile, String>)
    ensures
        match out {
            Ok(f) => walked_source(text@) == Ok::<SourceView, Seq<char>>(f.deep_view()),
            Err(m) => walked_source(text@) == Err::<SourceView, Seq<char>>(m@),
        },
{
    let file = syn::parse_file(text).map_err(|err| err.to_string())?;
    let mut collector = Collector { events: Vec::new() };
    syn::visit::Visit::visit_file(&mut collector, &file);
    Ok(SourceFile { events: collector.events })
}

} // verus!
