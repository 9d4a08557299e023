//! The scan for lazily loaded modules.
//!
//! A module asks for another one to be loaded lazily by handing a dynamic
//! `import("…")` to the function that it imported by default from
//! `next/dynamic`. The scan walks a module's syntax tree once, in source
//! order, remembers the name under which that function was imported last,
//! and collects the literal of each such request.

use crate::ast::{CallExpr, Callee, ImportDecl, ImportSpecifier, Node};
use crate::text::texts;
use vstd::prelude::*;
use vstd::string::StringExecFns;

verus! {

/// What a scan knows at some point of its walk.
pub ghost struct ScanState {
    /// The local name of the wrapper function, once an import gave one.
    pub binding: Option<Seq<char>>,
    /// The import literals collected so far, in source order.
    pub sources: Seq<Seq<char>>,
}

/// The state in which a scan starts.
pub open spec fn initial_state() -> ScanState {
    ScanState { binding: None, sources: Seq::empty() }
}

/// Whether the declaration imports the wrapper function by default.
pub open spec fn imports_wrapper(decl: ImportDecl) -> bool {
    &&& decl.src@ == "next/dynamic"@
    &&& decl.specifiers@.len() > 0
    &&& decl.specifiers@[0] is Default
}

/// The state after an import declaration: a default import from
/// `next/dynamic` as first specifier replaces the binding.
pub open spec fn scan_import_decl(decl: ImportDecl, st: ScanState) -> ScanState {
    if imports_wrapper(decl) {
        ScanState { binding: Some(decl.specifiers@[0]->Default_local@), sources: st.sources }
    } else {
        st
    }
}

/// The literal of a call `import("…")` whose sole argument is a string.
pub open spec fn import_source(call: CallExpr) -> Option<Seq<char>> {
    if call.callee is Import && call.args@.len() == 1 && call.args@[0] is Str {
        Some(call.args@[0]->value@)
    } else {
        None
    }
}

/// What the collector holds after a call expression: the call's literal if
/// it is a dynamic import with one, else what it held before. The collector
/// does not look inside a call expression.
pub open spec fn collect_call(call: CallExpr, found: Option<Seq<char>>) -> Option<Seq<char>> {
    match import_source(call) {
        Some(source) => Some(source),
        None => found,
    }
}

/// What the collector holds after a node and all that lies below it.
pub open spec fn collect_node(node: Node, found: Option<Seq<char>>) -> Option<Seq<char>>
    decreases node,
{
    match node {
        Node::Call(call) => collect_call(call, found),
        Node::Other { children } => collect_nodes(children@, children@.len(), found),
        _ => found,
    }
}

/// What the collector holds after the first `upto` nodes of a sequence.
pub open spec fn collect_nodes(nodes: Seq<Node>, upto: nat, found: Option<Seq<char>>) -> Option<
    Seq<char>,
>
    decreases nodes, upto,
{
    if upto == 0 || upto > nodes.len() {
        found
    } else {
        collect_node(nodes[upto - 1], collect_nodes(nodes, (upto - 1) as nat, found))
    }
}

/// Whether the call's callee is the identifier that the binding names.
pub open spec fn calls_binding(call: CallExpr, binding: Option<Seq<char>>) -> bool {
    &&& call.callee matches Callee::Expr(callee)
    &&& *callee matches Node::Ident { sym }
    &&& binding == Some(sym@)
}

/// The state after the scan has looked at a call expression itself: a call
/// of the wrapper adds the literal that the collector finds among the call's
/// arguments, if it finds one.
pub open spec fn scan_call_site(call: CallExpr, st: ScanState) -> ScanState {
    if calls_binding(call, st.binding) {
        match collect_nodes(call.args@, call.args@.len(), None) {
            Some(source) => ScanState { binding: st.binding, sources: st.sources.push(source) },
            None => st,
        }
    } else {
        st
    }
}

/// The state after a call expression and all that lies below it.
pub open spec fn scan_call(call: CallExpr, st: ScanState) -> ScanState
    decreases call,
{
    let at_site = scan_call_site(call, st);
    let after_callee = match call.callee {
        Callee::Expr(callee) => scan_node(*callee, at_site),
        _ => at_site,
    };
    scan_nodes(call.args@, call.args@.len(), after_callee)
}

/// The state after a node and all that lies below it.
pub open spec fn scan_node(node: Node, st: ScanState) -> ScanState
    decreases node,
{
    match node {
        Node::ImportDecl(decl) => scan_import_decl(decl, st),
        Node::Call(call) => scan_call(call, st),
        Node::Other { children } => scan_nodes(children@, children@.len(), st),
        _ => st,
    }
}

/// The state after the first `upto` nodes of a sequence.
pub open spec fn scan_nodes(nodes: Seq<Node>, upto: nat, st: ScanState) -> ScanState
    decreases nodes, upto,
{
    if upto == 0 || upto > nodes.len() {
        st
    } else {
        scan_node(nodes[upto - 1], scan_nodes(nodes, (upto - 1) as nat, st))
    }
}

/// The import literals that a scan of the program collects.
pub open spec fn scan_program(program: Node) -> Seq<Seq<char>> {
    scan_node(program, initial_state()).sources
}

/// Collects the literal of a dynamic import among the arguments of a call.
pub struct CollectImportSourceVisitor {
    pub import_source: Option<String>,
}

impl View for CollectImportSourceVisitor {
    type V = Option<Seq<char>>;

    open spec fn view(&self) -> Option<Seq<char>> {
        match self.import_source {
            Some(source) => Some(source@),
            None => None,
        }
    }
}

impl CollectImportSourceVisitor {
    /// A collector that holds nothing.
    pub fn new() -> (visitor: Self)
        ensures
            visitor@ is None,
    {
        CollectImportSourceVisitor { import_source: None }
    }

    /// Looks at one call expression, not at what lies below it.
    pub fn visit_call_expr(&mut self, call_expr: &CallExpr)
        ensures
            final(self)@ == collect_call(*call_expr, old(self)@),
    {
        if let Callee::Import = call_expr.callee {
            if call_expr.args.len() == 1 {
                if let Node::Str { value } = &call_expr.args[0] {
                    self.import_source = Some(value.clone());
                }
            }
        }
    }

    /// Walks a node and all that lies below it.
    pub fn visit_node(&mut self, node: &Node)
        ensures
            final(self)@ == collect_node(*node, old(self)@),
        decreases node,
    {
        match node {
            Node::Call(call) => self.visit_call_expr(call),
            Node::Other { children } => self.visit_nodes(children),
            _ => {},
        }
    }

    /// Walks the nodes of a list in order.
    pub fn visit_nodes(&mut self, nodes: &Vec<Node>)
        ensures
            final(self)@ == collect_nodes(nodes@, nodes@.len(), old(self)@),
        decreases nodes,
    {
        let mut i: usize = 0;
        while i < nodes.len()
            invariant
                i <= nodes@.len(),
                self@ == collect_nodes(nodes@, i as nat, old(self)@),
            decreases nodes@.len() - i,
        {
            self.visit_node(&nodes[i]);
            i += 1;
        }
    }
}

/// Walks a program and collects the literals of the dynamic imports that
/// are handed to the wrapper function.
pub struct DynamicImportVisitor {
    pub dynamic_ident: Option<String>,
    pub import_sources: Vec<String>,
}

impl View for DynamicImportVisitor {
    type V = ScanState;

    open spec fn view(&self) -> ScanState {
        ScanState {
            binding: match self.dynamic_ident {
                Some(ident) => Some(ident@),
                None => None,
            },
            sources: texts(self.import_sources@),
        }
    }
}

impl DynamicImportVisitor {
    /// A visitor at the start of a scan.
    pub fn new() -> (visitor: Self)
        ensures
            visitor@ == initial_state(),
    {
        let visitor = DynamicImportVisitor { import_sources: Vec::new(), dynamic_ident: None };
        assert(visitor@.sources =~= Seq::empty());
        visitor
    }

    /// Takes the wrapper's local name from `import name from "next/dynamic"`.
    pub fn visit_import_decl(&mut self, decl: &ImportDecl)
        ensures
            final(self)@ == scan_import_decl(*decl, old(self)@),
    {
        if decl.src == String::from_str("next/dynamic") {
            if decl.specifiers.len() > 0 {
                if let ImportSpecifier::Default { local } = &decl.specifiers[0] {
                    self.dynamic_ident = Some(local.clone());
                }
            }
        }
    }

    /// Collects the import that a call of the wrapper holds, then walks on
    /// into the call's children.
    pub fn visit_call_expr(&mut self, call_expr: &CallExpr)
        ensures
            final(self)@ == scan_call(*call_expr, old(self)@),
        decreases call_expr,
    {
        if let Callee::Expr(callee) = &call_expr.callee {
            if let Node::Ident { sym } = &**callee {
                if let Some(dynamic_ident) = &self.dynamic_ident {
                    if *sym == *dynamic_ident {
                        let mut collector = CollectImportSourceVisitor::new();
                        collector.visit_nodes(&call_expr.args);
                        if let Some(import_source) = collector.import_source {
                            let ghost before = self.import_sources@;
                            self.import_sources.push(import_source);
                            assert(texts(self.import_sources@) =~= texts(before).push(
                                import_source@,
                            ));
                        }
                    }
                }
            }
        }
        assert(self@ == scan_call_site(*call_expr, old(self)@));
        if let Callee::Expr(callee) = &call_expr.callee {
            self.visit_node(callee);
        }
        self.visit_nodes(&call_expr.args);
    }

    /// Walks a node and all that lies below it.
    pub fn visit_node(&mut self, node: &Node)
        ensures
            final(self)@ == scan_node(*node, old(self)@),
        decreases node,
    {
        match node {
            Node::ImportDecl(decl) => self.visit_import_decl(decl),
            Node::Call(call) => self.visit_call_expr(call),
            Node::Other { children } => self.visit_nodes(children),
            _ => {},
        }
    }

    /// Walks the nodes of a list in order.
    pub fn visit_nodes(&mut self, nodes: &Vec<Node>)
        ensures
            final(self)@ == scan_nodes(nodes@, nodes@.len(), old(self)@),
        decreases nodes,
    {
        let mut i: usize = 0;
        while i < nodes.len()
            invariant
                i <= nodes@.len(),
                self@ == scan_nodes(nodes@, i as nat, old(self)@),
            decreases nodes@.len() - i,
        {
            self.visit_node(&nodes[i]);
            i += 1;
        }
    }
}

/// Whether the node, or a node below it, imports the wrapper function.
pub open spec fn declares_wrapper(node: Node) -> bool
    decreases node,
{
    match node {
        Node::ImportDecl(decl) => imports_wrapper(decl),
        Node::Call(call) => call_declares_wrapper(call),
        Node::Other { children } => declares_wrapper_among(children@, children@.len()),
        _ => false,
    }
}

/// Whether the callee or an argument of the call imports the wrapper function.
pub open spec fn call_declares_wrapper(call: CallExpr) -> bool
    decreases call,
{
    ||| call.callee matches Callee::Expr(callee) && declares_wrapper(*callee)
    ||| declares_wrapper_among(call.args@, call.args@.len())
}

/// Whether one of the first `upto` nodes imports the wrapper function.
pub open spec fn declares_wrapper_among(nodes: Seq<Node>, upto: nat) -> bool
    decreases nodes, upto,
{
    if upto == 0 || upto > nodes.len() {
        false
    } else {
        declares_wrapper_among(nodes, (upto - 1) as nat) || declares_wrapper(nodes[upto - 1])
    }
}

/// Whether the collector sees `import("source")` at the node or below it:
/// the import is the node itself, or lies below it with no call expression
/// in between.
pub open spec fn shows_import(node: Node, source: Seq<char>) -> bool
    decreases node,
{
    match node {
        Node::Call(call) => import_source(call) == Some(source),
        Node::Other { children } => shows_import_among(children@, children@.len(), source),
        _ => false,
    }
}

/// Whether the collector sees `import("source")` in one of the first `upto`
/// nodes.
pub open spec fn shows_import_among(nodes: Seq<Node>, upto: nat, source: Seq<char>) -> bool
    decreases nodes, upto,
{
    if upto == 0 || upto > nodes.len() {
        false
    } else {
        shows_import_among(nodes, (upto - 1) as nat, source) || shows_import(
            nodes[upto - 1],
            source,
        )
    }
}

/// Whether the call is a call of the wrapper function, as the binding names
/// it, whose arguments show `import("source")` to the collector.
pub open spec fn call_holds_import(
    call: CallExpr,
    binding: Option<Seq<char>>,
    source: Seq<char>,
) -> bool {
    calls_binding(call, binding) && shows_import_among(call.args@, call.args@.len(), source)
}

/// Whether a walk that reaches the node in state `st` finds
/// `import("source")` handed to the wrapper function at the node or below
/// it. The wrapper function is the one that the binding names at the moment
/// at which the walk reaches the call.
pub open spec fn wraps_import(node: Node, st: ScanState, source: Seq<char>) -> bool
    decreases node,
{
    match node {
        Node::Call(call) => call_wraps_import(call, st, source),
        Node::Other { children } => wraps_import_among(children@, children@.len(), st, source),
        _ => false,
    }
}

/// Whether a walk that reaches the call in state `st` finds
/// `import("source")` handed to the wrapper function at the call or below
/// it.
pub open spec fn call_wraps_import(call: CallExpr, st: ScanState, source: Seq<char>) -> bool
    decreases call,
{
    let at_site = scan_call_site(call, st);
    let after_callee = match call.callee {
        Callee::Expr(callee) => scan_node(*callee, at_site),
        _ => at_site,
    };
    ||| call_holds_import(call, st.binding, source)
    ||| call.callee matches Callee::Expr(callee) && wraps_import(*callee, at_site, source)
    ||| wraps_import_among(call.args@, call.args@.len(), after_callee, source)
}

/// Whether a walk that reaches the nodes in state `st` finds
/// `import("source")` handed to the wrapper function in one of the first
/// `upto` of them.
pub open spec fn wraps_import_among(
    nodes: Seq<Node>,
    upto: nat,
    st: ScanState,
    source: Seq<char>,
) -> bool
    decreases nodes, upto,
{
    if upto == 0 || upto > nodes.len() {
        false
    } else {
        wraps_import_among(nodes, (upto - 1) as nat, st, source) || wraps_import(
            nodes[upto - 1],
            scan_nodes(nodes, (upto - 1) as nat, st),
            source,
        )
    }
}

/// Whether the node, or a node below it, is a call of the identifier
/// `name`.
pub open spec fn calls_name(node: Node, name: Seq<char>) -> bool
    decreases node,
{
    match node {
        Node::Call(call) => call_calls_name(call, name),
        Node::Other { children } => calls_name_among(children@, children@.len(), name),
        _ => false,
    }
}

/// Whether the call, or a node below it, is a call of the identifier
/// `name`.
pub open spec fn call_calls_name(call: CallExpr, name: Seq<char>) -> bool
    decreases call,
{
    ||| calls_binding(call, Some(name))
    ||| call.callee matches Callee::Expr(callee) && calls_name(*callee, name)
    ||| calls_name_among(call.args@, call.args@.len(), name)
}

/// Whether one of the first `upto` nodes, or a node below it, is a call of
/// the identifier `name`.
pub open spec fn calls_name_among(nodes: Seq<Node>, upto: nat, name: Seq<char>) -> bool
    decreases nodes, upto,
{
    if upto == 0 || upto > nodes.len() {
        false
    } else {
        calls_name_among(nodes, (upto - 1) as nat, name) || calls_name(nodes[upto - 1], name)
    }
}

/// A walk over a node changes nothing where neither the node nor anything
/// below it imports the wrapper function or calls it: the binding stays,
/// and no literal is added, whatever `import("…")` the node holds. Without a
/// binding no call is one of the wrapper function.
pub proof fn lemma_node_without_wrapper_call(node: Node, st: ScanState)
    requires
        !declares_wrapper(node),
        st.binding matches Some(name) ==> !calls_name(node, name),
    ensures
        scan_node(node, st) == st,
    decreases node,
{
    match node {
        Node::Call(call) => lemma_call_without_wrapper_call(call, st),
        Node::Other { children } => lemma_nodes_without_wrapper_call(
            children@,
            children@.len(),
            st,
        ),
        _ => {},
    }
}

/// A walk over a call expression changes nothing where neither the call nor
/// anything below it imports the wrapper function or calls it.
pub proof fn lemma_call_without_wrapper_call(call: CallExpr, st: ScanState)
    requires
        !call_declares_wrapper(call),
        st.binding matches Some(name) ==> !call_calls_name(call, name),
    ensures
        scan_call(call, st) == st,
    decreases call,
{
    assert(scan_call_site(call, st) == st);
    if let Callee::Expr(callee) = call.callee {
        lemma_node_without_wrapper_call(*callee, st);
    }
    lemma_nodes_without_wrapper_call(call.args@, call.args@.len(), st);
}

/// A walk over the first `upto` nodes changes nothing where none of them,
/// nor anything below them, imports the wrapper function or calls it.
pub proof fn lemma_nodes_without_wrapper_call(nodes: Seq<Node>, upto: nat, st: ScanState)
    requires
        !declares_wrapper_among(nodes, upto),
        st.binding matches Some(name) ==> !calls_name_among(nodes, upto, name),
    ensures
        scan_nodes(nodes, upto, st) == st,
    decreases nodes, upto,
{
    if !(upto == 0 || upto > nodes.len()) {
        lemma_nodes_without_wrapper_call(nodes, (upto - 1) as nat, st);
        lemma_node_without_wrapper_call(nodes[upto - 1], st);
    }
}

/// A program that nowhere imports the wrapper function by default from
/// `next/dynamic` yields no import literal, whatever it calls.
pub proof fn lemma_no_wrapper_import_no_sources(program: Node)
    requires
        !declares_wrapper(program),
    ensures
        scan_program(program) == Seq::<Seq<char>>::empty(),
{
    lemma_node_without_wrapper_call(program, initial_state());
}

proof fn lemma_collected_node(node: Node, found: Option<Seq<char>>, source: Seq<char>)
    requires
        collect_node(node, found) == Some(source),
    ensures
        found == Some(source) || shows_import(node, source),
    decreases node,
{
    match node {
        Node::Other { children } => lemma_collected_nodes(
            children@,
            children@.len(),
            found,
            source,
        ),
        _ => {},
    }
}

proof fn lemma_collected_nodes(
    nodes: Seq<Node>,
    upto: nat,
    found: Option<Seq<char>>,
    source: Seq<char>,
)
    requires
        collect_nodes(nodes, upto, found) == Some(source),
    ensures
        found == Some(source) || shows_import_among(nodes, upto, source),
    decreases nodes, upto,
{
    if !(upto == 0 || upto > nodes.len()) {
        let earlier = collect_nodes(nodes, (upto - 1) as nat, found);
        lemma_collected_node(nodes[upto - 1], earlier, source);
        if earlier == Some(source) {
            lemma_collected_nodes(nodes, (upto - 1) as nat, found, source);
        }
    }
}

/// Every literal that a walk over a node adds is the literal of an
/// `import("…")` that the node, or a node below it, hands to the wrapper
/// function.
pub proof fn lemma_node_adds_wrapped_sources(node: Node, st: ScanState, source: Seq<char>)
    requires
        scan_node(node, st).sources.contains(source),
    ensures
        st.sources.contains(source) || wraps_import(node, st, source),
    decreases node,
{
    match node {
        Node::Call(call) => lemma_call_adds_wrapped_sources(call, st, source),
        Node::Other { children } => lemma_nodes_add_wrapped_sources(
            children@,
            children@.len(),
            st,
            source,
        ),
        _ => {},
    }
}

/// Every literal that a walk over a call expression adds is the literal of
/// an `import("…")` that the call, or a node below it, hands to the wrapper
/// function.
pub proof fn lemma_call_adds_wrapped_sources(call: CallExpr, st: ScanState, source: Seq<char>)
    requires
        scan_call(call, st).sources.contains(source),
    ensures
        st.sources.contains(source) || call_wraps_import(call, st, source),
    decreases call,
{
    let at_site = scan_call_site(call, st);
    let after_callee = match call.callee {
        Callee::Expr(callee) => scan_node(*callee, at_site),
        _ => at_site,
    };
    lemma_nodes_add_wrapped_sources(call.args@, call.args@.len(), after_callee, source);
    if after_callee.sources.contains(source) {
        if let Callee::Expr(callee) = call.callee {
            lemma_node_adds_wrapped_sources(*callee, at_site, source);
        }
        if at_site.sources.contains(source) && !st.sources.contains(source) {
            let collected = collect_nodes(call.args@, call.args@.len(), None);
            assert(collected is Some);
            let i = choose|i: int| 0 <= i < at_site.sources.len() && at_site.sources[i] == source;
            if i < st.sources.len() {
                assert(st.sources[i] == source);
            }
            assert(collected == Some(source));
            lemma_collected_nodes(call.args@, call.args@.len(), None, source);
        }
    }
}

/// Every literal that a walk over the first `upto` nodes adds is the
/// literal of an `import("…")` that one of them, or a node below it, hands
/// to the wrapper function.
pub proof fn lemma_nodes_add_wrapped_sources(
    nodes: Seq<Node>,
    upto: nat,
    st: ScanState,
    source: Seq<char>,
)
    requires
        scan_nodes(nodes, upto, st).sources.contains(source),
    ensures
        st.sources.contains(source) || wraps_import_among(nodes, upto, st, source),
    decreases nodes, upto,
{
    if !(upto == 0 || upto > nodes.len()) {
        let earlier = scan_nodes(nodes, (upto - 1) as nat, st);
        lemma_node_adds_wrapped_sources(nodes[upto - 1], earlier, source);
        if earlier.sources.contains(source) {
            lemma_nodes_add_wrapped_sources(nodes, (upto - 1) as nat, st, source);
        }
    }
}

/// Every literal that a scan yields is the literal of an `import("…")` that
/// the program hands to the wrapper function, under the name that the
/// wrapper function has where the call stands: an import outside every such
/// call never shows up in the result.
pub proof fn lemma_sources_are_wrapped(program: Node, source: Seq<char>)
    requires
        scan_program(program).contains(source),
    ensures
        wraps_import(program, initial_state(), source),
{
    lemma_node_adds_wrapped_sources(program, initial_state(), source);
}

} // verus!
