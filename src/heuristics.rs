//! Name patterns that hint at edges static analysis cannot see.
use vstd::prelude::*;
use vstd::string::*;
use crate::node::{CodeNode, NodeKind};
use crate::text::{
    chars_of, contains_chars, contains_seq, ends_with_chars, ends_with_seq, lower_of, lowercase,
    starts_with_chars, starts_with_seq, decimal, to_decimal,
};

verus! {

/// Kinds of edges that may exist at run time.
#[derive(Clone, Copy, Debug, PartialEq, Eq, Hash, Structural)]
pub enum UncertainEdgeKind {
    Callback,
    DynamicDispatch,
    WidgetTree,
    EventHandler,
    DependencyInjection,
    Reflection,
}

impl UncertainEdgeKind {
    pub fn to_string(&self) -> (r: String)
        ensures
            *self == UncertainEdgeKind::Callback ==> r@ == "callback"@,
            *self == UncertainEdgeKind::DynamicDispatch ==> r@ == "dynamic dispatch"@,
            *self == UncertainEdgeKind::WidgetTree ==> r@ == "widget tree"@,
            *self == UncertainEdgeKind::EventHandler ==> r@ == "event handler"@,
            *self == UncertainEdgeKind::DependencyInjection ==> r@ == "dependency injection"@,
            *self == UncertainEdgeKind::Reflection ==> r@ == "reflection"@,
    {
        match self {
            UncertainEdgeKind::Callback => String::from_str("callback"),
            UncertainEdgeKind::DynamicDispatch => String::from_str("dynamic dispatch"),
            UncertainEdgeKind::WidgetTree => String::from_str("widget tree"),
            UncertainEdgeKind::EventHandler => String::from_str("event handler"),
            UncertainEdgeKind::DependencyInjection => String::from_str("dependency injection"),
            UncertainEdgeKind::Reflection => String::from_str("reflection"),
        }
    }
}

/// An edge that may exist at run time, with a confidence in percent.
#[derive(Clone, Debug)]
pub struct UncertainEdge {
    pub from: String,
    pub to: String,
    pub kind: UncertainEdgeKind,
    pub confidence_percent: u8,
    pub reason: String,
}

pub struct HeuristicsMatcher;

pub open spec fn ends_any(s: Seq<char>, a: Seq<char>, b: Seq<char>, c: Seq<char>, d: Seq<char>, e: Seq<char>) -> bool {
    ends_with_seq(s, a) || ends_with_seq(s, b) || ends_with_seq(s, c) || ends_with_seq(s, d) || ends_with_seq(s, e)
}

/// A class named like a Flutter widget (`...Widget`, `State`, `Page`, `Screen`, `View`).
pub open spec fn flutter_widget(n: CodeNode) -> bool {
    n.kind == NodeKind::Class && ends_any(n.name@, "Widget"@, "State"@, "Page"@, "Screen"@, "View"@)
}

/// A function or method whose lower-cased name starts with `on` or `handle`, or ends in
/// `handler`, `callback` or `listener`.
pub open spec fn event_handler(n: CodeNode) -> bool {
    event_handler_lowered(n.kind, lower_of(n.name@))
}

/// The event-handler pattern on an already lower-cased name.
pub open spec fn event_handler_lowered(kind: NodeKind, l: Seq<char>) -> bool {
    (kind == NodeKind::Function || kind == NodeKind::Method) && (starts_with_seq(l, "on"@)
        || starts_with_seq(l, "handle"@) || ends_with_seq(l, "handler"@) || ends_with_seq(l, "callback"@)
        || ends_with_seq(l, "listener"@))
}

/// A lower-cased name ending in `fn`, `callback` or `handler`, or starting with `on_`.
pub open spec fn callback_style(n: CodeNode) -> bool {
    callback_style_lowered(lower_of(n.name@))
}

/// The callback pattern on an already lower-cased name.
pub open spec fn callback_style_lowered(l: Seq<char>) -> bool {
    ends_with_seq(l, "fn"@) || ends_with_seq(l, "callback"@) || ends_with_seq(l, "handler"@)
        || starts_with_seq(l, "on_"@)
}

/// A lower-cased name ending in `factory`, `provider`, `injector` or `container`, or
/// holding `singleton`.
pub open spec fn dependency_injection(n: CodeNode) -> bool {
    dependency_injection_lowered(lower_of(n.name@))
}

/// The factory/provider pattern on an already lower-cased name.
pub open spec fn dependency_injection_lowered(l: Seq<char>) -> bool {
    ends_with_seq(l, "factory"@) || ends_with_seq(l, "provider"@) || ends_with_seq(l, "injector"@)
        || ends_with_seq(l, "container"@) || contains_seq(l, "singleton"@)
}

/// A function or class in a `.tsx` file whose name starts with an upper-case letter.
pub open spec fn react_component(n: CodeNode, first_upper: bool) -> bool {
    (n.kind == NodeKind::Function || n.kind == NodeKind::Class) && ends_with_seq(n.file@, ".tsx"@)
        && n.name@.len() > 0 && first_upper
}

/// Whether `char::is_uppercase` holds of a character.
pub uninterp spec fn upper_char(c: char) -> bool;

/// Relies on `char::is_uppercase`: the Unicode `Uppercase` property of the character.
#[verifier::external_body]
pub(crate) fn upper_char_of(c: char) -> (r: bool)
    ensures
        r == upper_char(c),
{
    c.is_uppercase()
}

fn ends_with_str(s: &Vec<char>, suffix: &str) -> (r: bool)
    ensures
        r == ends_with_seq(s@, suffix@),
{
    let t = chars_of(suffix);
    ends_with_chars(s, &t)
}

fn starts_with_str(s: &Vec<char>, prefix: &str) -> (r: bool)
    ensures
        r == starts_with_seq(s@, prefix@),
{
    let t = chars_of(prefix);
    starts_with_chars(s, &t)
}

impl HeuristicsMatcher {
    pub fn is_flutter_widget(node: &CodeNode) -> (r: bool)
        ensures
            r == flutter_widget(*node),
    {
        let name = chars_of(node.name.as_str());
        node.kind == NodeKind::Class && (ends_with_str(&name, "Widget") || ends_with_str(&name, "State")
            || ends_with_str(&name, "Page") || ends_with_str(&name, "Screen") || ends_with_str(&name, "View"))
    }

    pub fn is_react_component(node: &CodeNode) -> (r: bool)
        ensures
            r == react_component(*node, node.name@.len() > 0 && upper_char(node.name@[0])),
    {
        let file = chars_of(node.file.as_str());
        let name = chars_of(node.name.as_str());
        (node.kind == NodeKind::Function || node.kind == NodeKind::Class) && ends_with_str(&file, ".tsx")
            && name.len() > 0 && upper_char_of(name[0])
    }

    pub fn is_event_handler(node: &CodeNode) -> (r: bool)
        ensures
            r == event_handler(*node),
    {
        let lower = lowercase(node.name.as_str());
        Self::is_event_handler_name(node.kind, lower.as_str())
    }

    /// The event-handler pattern on a lower-cased name.
    pub fn is_event_handler_name(kind: NodeKind, lowered: &str) -> (r: bool)
        ensures
            r == event_handler_lowered(kind, lowered@),
    {
        let l = chars_of(lowered);
        (kind == NodeKind::Function || kind == NodeKind::Method) && (starts_with_str(&l, "on")
            || starts_with_str(&l, "handle") || ends_with_str(&l, "handler") || ends_with_str(&l, "callback")
            || ends_with_str(&l, "listener"))
    }

    pub fn is_callback_style(node: &CodeNode) -> (r: bool)
        ensures
            r == callback_style(*node),
    {
        let lower = lowercase(node.name.as_str());
        Self::is_callback_style_name(lower.as_str())
    }

    /// The callback pattern on a lower-cased name.
    pub fn is_callback_style_name(lowered: &str) -> (r: bool)
        ensures
            r == callback_style_lowered(lowered@),
    {
        let l = chars_of(lowered);
        ends_with_str(&l, "fn") || ends_with_str(&l, "callback") || ends_with_str(&l, "handler")
            || starts_with_str(&l, "on_")
    }

    pub fn is_dependency_injection(node: &CodeNode) -> (r: bool)
        ensures
            r == dependency_injection(*node),
    {
        let lower = lowercase(node.name.as_str());
        Self::is_dependency_injection_name(lower.as_str())
    }

    /// The factory/provider pattern on a lower-cased name.
    pub fn is_dependency_injection_name(lowered: &str) -> (r: bool)
        ensures
            r == dependency_injection_lowered(lowered@),
    {
        let l = chars_of(lowered);
        let singleton = chars_of("singleton");
        ends_with_str(&l, "factory") || ends_with_str(&l, "provider") || ends_with_str(&l, "injector")
            || ends_with_str(&l, "container") || contains_chars(&l, &singleton)
    }

    /// One possible edge per pattern a vertex matches: from an event source for event
    /// handlers (70%), from a caller for callback-style names (60%), from a parent
    /// widget for Flutter widgets (80%), in that order per vertex.
    pub fn infer_uncertain_edges(nodes: &Vec<CodeNode>) -> (r: Vec<UncertainEdge>)
        ensures
            r@.map_values(|e: UncertainEdge| edge_summary(e)) == uncertain_edges_of(nodes@),
    {
        let mut edges: Vec<UncertainEdge> = Vec::new();
        let mut i: usize = 0;
        while i < nodes.len()
            invariant
                i <= nodes@.len(),
                edges@.map_values(|e: UncertainEdge| edge_summary(e)) == uncertain_edges_of(nodes@.subrange(0, i as int)),
            decreases nodes@.len() - i,
        {
            let node = &nodes[i];
            assert(nodes@.subrange(0, i + 1).drop_last() =~= nodes@.subrange(0, i as int));
            let ghost before = edges@;
            if Self::is_event_handler(node) {
                let reason = String::from_str("'").concat(node.name.as_str()).concat("' looks like an event handler");
                edges.push(UncertainEdge {
                    from: String::from_str("event_source"),
                    to: node.id.clone(),
                    kind: UncertainEdgeKind::EventHandler,
                    confidence_percent: 70,
                    reason,
                });
            }
            if Self::is_callback_style(node) {
                let reason = String::from_str("'").concat(node.name.as_str()).concat("' is likely passed as a callback");
                edges.push(UncertainEdge {
                    from: String::from_str("caller"),
                    to: node.id.clone(),
                    kind: UncertainEdgeKind::Callback,
                    confidence_percent: 60,
                    reason,
                });
            }
            if Self::is_flutter_widget(node) {
                let reason = String::from_str("'").concat(node.name.as_str()).concat("' is a Flutter widget in the widget tree");
                edges.push(UncertainEdge {
                    from: String::from_str("parent_widget"),
                    to: node.id.clone(),
                    kind: UncertainEdgeKind::WidgetTree,
                    confidence_percent: 80,
                    reason,
                });
            }
            proof {
                let n = nodes@[i as int];
                assert(edges@.map_values(|e: UncertainEdge| edge_summary(e)) =~= before.map_values(|e: UncertainEdge| edge_summary(e)) + edges_for(n));
            }
            i = i + 1;
        }
        assert(nodes@.subrange(0, i as int) =~= nodes@);
        edges
    }
}

/// The facts of a possible edge: source, target, kind, confidence and reason.
pub open spec fn edge_summary(e: UncertainEdge) -> (Seq<char>, Seq<char>, UncertainEdgeKind, u8, Seq<char>) {
    (e.from@, e.to@, e.kind, e.confidence_percent, e.reason@)
}

/// The possible edges of one vertex, in the order event handler, callback, widget.
pub open spec fn edges_for(n: CodeNode) -> Seq<(Seq<char>, Seq<char>, UncertainEdgeKind, u8, Seq<char>)> {
    let q = "'"@ + n.name@;
    let a = if event_handler(n) {
        seq![("event_source"@, n.id@, UncertainEdgeKind::EventHandler, 70u8, q + "' looks like an event handler"@)]
    } else {
        seq![]
    };
    let b = if callback_style(n) {
        a.push(("caller"@, n.id@, UncertainEdgeKind::Callback, 60u8, q + "' is likely passed as a callback"@))
    } else {
        a
    };
    if flutter_widget(n) {
        b.push(("parent_widget"@, n.id@, UncertainEdgeKind::WidgetTree, 80u8, q + "' is a Flutter widget in the widget tree"@))
    } else {
        b
    }
}

/// The possible edges of the vertices `s`, vertex by vertex.
pub open spec fn uncertain_edges_of(s: Seq<CodeNode>) -> Seq<(Seq<char>, Seq<char>, UncertainEdgeKind, u8, Seq<char>)>
    decreases s.len(),
{
    if s.len() == 0 {
        seq![]
    } else {
        uncertain_edges_of(s.drop_last()) + edges_for(s.last())
    }
}

/// A limit of static analysis, with advice.
#[derive(Clone, Debug)]
pub struct AnalysisWarning {
    pub message: String,
    pub suggestion: String,
}

impl AnalysisWarning {
    pub fn new(message: String, suggestion: String) -> (r: AnalysisWarning)
        ensures
            r.message@ == message@ && r.suggestion@ == suggestion@,
    {
        AnalysisWarning { message, suggestion }
    }
}

/// How many of `s` meet `p`.
pub open spec fn count_where(s: Seq<CodeNode>, p: spec_fn(CodeNode) -> bool) -> nat
    decreases s.len(),
{
    if s.len() == 0 {
        0
    } else {
        count_where(s.drop_last(), p) + if p(s.last()) { 1nat } else { 0nat }
    }
}

/// The warnings for a set of vertices, as (message, suggestion): more than five
/// callback-style names, more than three event handlers, any Flutter widget.
pub open spec fn limitation_messages(s: Seq<CodeNode>) -> Seq<(Seq<char>, Seq<char>)> {
    let cb = count_where(s, |n: CodeNode| callback_style(n));
    let eh = count_where(s, |n: CodeNode| event_handler(n));
    let fw = count_where(s, |n: CodeNode| flutter_widget(n));
    let a = if cb > 5 {
        seq![("Found "@ + decimal(cb) + " callback-style nodes"@, "Callbacks may be invoked dynamically. Verify runtime behavior."@)]
    } else {
        seq![]
    };
    let b = if eh > 3 {
        a.push(("Found "@ + decimal(eh) + " event handlers"@, "Event handlers are connected at runtime. Check event sources."@))
    } else {
        a
    };
    if fw > 0 {
        b.push(("Detected "@ + decimal(fw) + " Flutter widgets"@, "Widget tree hierarchy is determined at runtime."@))
    } else {
        b
    }
}

fn count_matching(nodes: &Vec<CodeNode>, which: u8) -> (r: usize)
    requires
        which < 3,
    ensures
        which == 0 ==> r == count_where(nodes@, |n: CodeNode| callback_style(n)),
        which == 1 ==> r == count_where(nodes@, |n: CodeNode| event_handler(n)),
        which == 2 ==> r == count_where(nodes@, |n: CodeNode| flutter_widget(n)),
{
    let ghost p = if which == 0 {
        |n: CodeNode| callback_style(n)
    } else if which == 1 {
        |n: CodeNode| event_handler(n)
    } else {
        |n: CodeNode| flutter_widget(n)
    };
    let mut c: usize = 0;
    let mut i: usize = 0;
    while i < nodes.len()
        invariant
            which < 3,
            i <= nodes@.len(),
            which == 0 ==> p == (|n: CodeNode| callback_style(n)),
            which == 1 ==> p == (|n: CodeNode| event_handler(n)),
            which == 2 ==> p == (|n: CodeNode| flutter_widget(n)),
            c == count_where(nodes@.subrange(0, i as int), p),
            c <= i,
        decreases nodes@.len() - i,
    {
        assert(nodes@.subrange(0, i + 1).drop_last() =~= nodes@.subrange(0, i as int));
        let hit = if which == 0 {
            HeuristicsMatcher::is_callback_style(&nodes[i])
        } else if which == 1 {
            HeuristicsMatcher::is_event_handler(&nodes[i])
        } else {
            HeuristicsMatcher::is_flutter_widget(&nodes[i])
        };
        if hit {
            c = c + 1;
        }
        i = i + 1;
    }
    assert(nodes@.subrange(0, i as int) =~= nodes@);
    c
}

/// Warns about patterns that limit static analysis.
pub fn detect_analysis_limitations(nodes: &Vec<CodeNode>) -> (r: Vec<AnalysisWarning>)
    ensures
        r@.map_values(|w: AnalysisWarning| (w.message@, w.suggestion@)) == limitation_messages(nodes@),
{
    let mut warnings: Vec<AnalysisWarning> = Vec::new();
    let cb = count_matching(nodes, 0);
    if cb > 5 {
        warnings.push(AnalysisWarning::new(
            String::from_str("Found ").concat(to_decimal(cb).as_str()).concat(" callback-style nodes"),
            String::from_str("Callbacks may be invoked dynamically. Verify runtime behavior."),
        ));
    }
    let eh = count_matching(nodes, 1);
    if eh > 3 {
        warnings.push(AnalysisWarning::new(
            String::from_str("Found ").concat(to_decimal(eh).as_str()).concat(" event handlers"),
            String::from_str("Event handlers are connected at runtime. Check event sources."),
        ));
    }
    let fw = count_matching(nodes, 2);
    if fw > 0 {
        warnings.push(AnalysisWarning::new(
            String::from_str("Detected ").concat(to_decimal(fw).as_str()).concat(" Flutter widgets"),
            String::from_str("Widget tree hierarchy is determined at runtime."),
        ));
    }
    assert(warnings@.map_values(|w: AnalysisWarning| (w.message@, w.suggestion@)) =~= limitation_messages(nodes@));
    warnings
}

} // verus!
