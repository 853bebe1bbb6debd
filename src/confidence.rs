//! Confidence and role classification of an impact result.
use vstd::prelude::*;
use vstd::string::*;
use crate::impact::{AffectedNode, ImpactAnalysis};
use crate::text::{decimal, to_decimal};

verus! {

#[derive(Clone, Copy, Debug, PartialEq, Eq, Hash, Structural)]
pub enum ConfidenceLevel {
    High,
    Medium,
    Low,
}

impl ConfidenceLevel {
    pub fn to_string(&self) -> (r: String)
        ensures
            *self == ConfidenceLevel::High ==> r@ == "High"@,
            *self == ConfidenceLevel::Medium ==> r@ == "Medium"@,
            *self == ConfidenceLevel::Low ==> r@ == "Low"@,
    {
        match self {
            ConfidenceLevel::High => String::from_str("High"),
            ConfidenceLevel::Medium => String::from_str("Medium"),
            ConfidenceLevel::Low => String::from_str("Low"),
        }
    }
}

/// Where a vertex sits, judged by how many vertices reach it and how many it reaches.
#[derive(Clone, Copy, Debug, PartialEq, Eq, Hash, Structural)]
pub enum NodeRole {
    EntryPoint,
    Utility,
    CoreLogic,
    Isolated,
    Adapter,
}

impl NodeRole {
    pub fn to_string(&self) -> (r: String)
        ensures
            *self == NodeRole::EntryPoint ==> r@ == "Entry Point"@,
            *self == NodeRole::Utility ==> r@ == "Utility"@,
            *self == NodeRole::CoreLogic ==> r@ == "Core Logic"@,
            *self == NodeRole::Isolated ==> r@ == "Isolated"@,
            *self == NodeRole::Adapter ==> r@ == "Adapter"@,
    {
        match self {
            NodeRole::EntryPoint => String::from_str("Entry Point"),
            NodeRole::Utility => String::from_str("Utility"),
            NodeRole::CoreLogic => String::from_str("Core Logic"),
            NodeRole::Isolated => String::from_str("Isolated"),
            NodeRole::Adapter => String::from_str("Adapter"),
        }
    }
}

/// The role for `up` upstream and `down` downstream vertices.
pub open spec fn role_of(up: nat, down: nat) -> NodeRole {
    if up == 0 && down == 0 {
        NodeRole::Isolated
    } else if up == 0 {
        NodeRole::EntryPoint
    } else if down == 0 {
        NodeRole::Utility
    } else if (up <= 2 && down > 5) || (down <= 2 && up > 5) {
        NodeRole::Adapter
    } else {
        NodeRole::CoreLogic
    }
}

/// The confidence level: isolated vertices are Low; entry points High (Medium past five
/// downstream); utilities High; connected vertices High up to 20 affected, Medium up to
/// 50, Low beyond.
pub open spec fn level_of(up: nat, down: nat, total: nat) -> ConfidenceLevel {
    if up == 0 && down == 0 {
        ConfidenceLevel::Low
    } else if up == 0 {
        if down > 5 {
            ConfidenceLevel::Medium
        } else {
            ConfidenceLevel::High
        }
    } else if down == 0 {
        ConfidenceLevel::High
    } else if total > 50 {
        ConfidenceLevel::Low
    } else if total > 20 {
        ConfidenceLevel::Medium
    } else {
        ConfidenceLevel::High
    }
}

/// The number of records at hop distance 1.
pub open spec fn direct_count(recs: Seq<AffectedNode>) -> nat
    decreases recs.len(),
{
    if recs.len() == 0 {
        0
    } else {
        direct_count(recs.drop_last()) + if recs.last().hop_distance == 1 { 1nat } else { 0nat }
    }
}

/// The reasons given for the level, naming the signals behind it.
pub open spec fn reasons_of(up: nat, down: nat, total: nat, direct: nat) -> Seq<Seq<char>> {
    let base = if up == 0 && down == 0 {
        seq!["Node appears isolated (no detected connections)"@]
    } else if up == 0 {
        seq![
            "Node is an entry point (no internal callers)"@,
            "Has "@ + decimal(down) + " downstream dependencies"@,
        ]
    } else if down == 0 {
        seq![
            "Node is a utility (no outgoing dependencies)"@,
            "Called by "@ + decimal(up) + " upstream nodes"@,
        ]
    } else {
        let counts = decimal(up) + " callers, "@ + decimal(down) + " dependencies"@;
        if total > 50 {
            seq![counts, "Very large blast radius"@]
        } else if total > 20 {
            seq![counts, "Large blast radius detected"@]
        } else {
            seq![counts, "Well-connected with manageable impact"@]
        }
    };
    if total > 0 && direct > 0 {
        base.push(decimal(direct) + " nodes will break immediately"@)
    } else {
        base
    }
}

/// The suggestions that accompany the level.
pub open spec fn suggestions_of(up: nat, down: nat, total: nat) -> Seq<Seq<char>> {
    let base = if up == 0 && down == 0 {
        seq!["Verify if this is called dynamically or from external code"@]
    } else if up == 0 {
        if down > 5 {
            seq!["Consider impact on downstream dependencies"@]
        } else {
            seq![]
        }
    } else if down == 0 {
        seq![]
    } else if total > 50 {
        seq!["This change affects a significant portion of the codebase"@]
    } else if total > 20 {
        seq!["Consider breaking this change into smaller refactors"@]
    } else {
        seq![]
    };
    base.push("Tests still recommended for behavioral verification"@)
}

pub open spec fn texts(v: Seq<String>) -> Seq<Seq<char>> {
    v.map_values(|s: String| s@)
}

/// A confidence level with the reasons for it and suggestions.
#[derive(Clone, Debug)]
pub struct ConfidenceExplanation {
    pub level: ConfidenceLevel,
    pub reasons: Vec<String>,
    pub suggestions: Vec<String>,
}

fn push_text(v: &mut Vec<String>, s: String)
    ensures
        texts(final(v)@) == texts(old(v)@).push(s@),
{
    v.push(s);
    assert(texts(v@) =~= texts(old(v)@).push(s@));
}

fn count_direct(recs: &Vec<AffectedNode>) -> (r: usize)
    ensures
        r == direct_count(recs@),
{
    let mut c: usize = 0;
    let mut i: usize = 0;
    while i < recs.len()
        invariant
            i <= recs@.len(),
            c == direct_count(recs@.subrange(0, i as int)),
            c <= i,
        decreases recs@.len() - i,
    {
        assert(recs@.subrange(0, i + 1).drop_last() =~= recs@.subrange(0, i as int));
        if recs[i].hop_distance == 1 {
            c = c + 1;
        }
        i = i + 1;
    }
    assert(recs@.subrange(0, i as int) =~= recs@);
    c
}

impl ConfidenceExplanation {
    /// Classifies an impact result by its upstream and downstream counts and its total.
    pub fn from_analysis(analysis: &ImpactAnalysis) -> (r: ConfidenceExplanation)
        ensures
            r.level == level_of(analysis.upstream@.len(), analysis.downstream@.len(), analysis.total_affected as nat),
            texts(r.reasons@) == reasons_of(
                analysis.upstream@.len(),
                analysis.downstream@.len(),
                analysis.total_affected as nat,
                direct_count(analysis.upstream@),
            ),
            texts(r.suggestions@) == suggestions_of(
                analysis.upstream@.len(),
                analysis.downstream@.len(),
                analysis.total_affected as nat,
            ),
    {
        let up = analysis.upstream.len();
        let down = analysis.downstream.len();
        let total = analysis.total_affected;
        let mut reasons: Vec<String> = Vec::new();
        let mut suggestions: Vec<String> = Vec::new();
        let level;
        if up == 0 && down == 0 {
            push_text(&mut reasons, String::from_str("Node appears isolated (no detected connections)"));
            push_text(&mut suggestions, String::from_str("Verify if this is called dynamically or from external code"));
            level = ConfidenceLevel::Low;
        } else if up == 0 {
            push_text(&mut reasons, String::from_str("Node is an entry point (no internal callers)"));
            push_text(&mut reasons, String::from_str("Has ").concat(to_decimal(down).as_str()).concat(" downstream dependencies"));
            if down > 5 {
                push_text(&mut suggestions, String::from_str("Consider impact on downstream dependencies"));
                level = ConfidenceLevel::Medium;
            } else {
                level = ConfidenceLevel::High;
            }
        } else if down == 0 {
            push_text(&mut reasons, String::from_str("Node is a utility (no outgoing dependencies)"));
            push_text(&mut reasons, String::from_str("Called by ").concat(to_decimal(up).as_str()).concat(" upstream nodes"));
            level = ConfidenceLevel::High;
        } else {
            push_text(&mut reasons, to_decimal(up).concat(" callers, ").concat(to_decimal(down).as_str()).concat(" dependencies"));
            if total > 50 {
                push_text(&mut reasons, String::from_str("Very large blast radius"));
                push_text(&mut suggestions, String::from_str("This change affects a significant portion of the codebase"));
                level = ConfidenceLevel::Low;
            } else if total > 20 {
                push_text(&mut reasons, String::from_str("Large blast radius detected"));
                push_text(&mut suggestions, String::from_str("Consider breaking this change into smaller refactors"));
                level = ConfidenceLevel::Medium;
            } else {
                push_text(&mut reasons, String::from_str("Well-connected with manageable impact"));
                level = ConfidenceLevel::High;
            }
        }
        if total > 0 {
            let direct = count_direct(&analysis.upstream);
            if direct > 0 {
                push_text(&mut reasons, to_decimal(direct).concat(" nodes will break immediately"));
            }
        }
        push_text(&mut suggestions, String::from_str("Tests still recommended for behavioral verification"));
        proof {
            let up_n = up as nat;
            let down_n = down as nat;
            assert(texts(reasons@) =~= reasons_of(up_n, down_n, total as nat, direct_count(analysis.upstream@)));
            assert(texts(suggestions@) =~= suggestions_of(up_n, down_n, total as nat));
        }
        ConfidenceExplanation { level, reasons, suggestions }
    }
}

impl NodeRole {
    /// The role of the analysed vertex: isolated, entry point, utility, adapter (at most
    /// two on one side and more than five on the other), or core logic.
    pub fn from_analysis(analysis: &ImpactAnalysis) -> (r: NodeRole)
        ensures
            r == role_of(analysis.upstream@.len(), analysis.downstream@.len()),
    {
        let up = analysis.upstream.len();
        let down = analysis.downstream.len();
        if up == 0 && down == 0 {
            NodeRole::Isolated
        } else if up == 0 {
            NodeRole::EntryPoint
        } else if down == 0 {
            NodeRole::Utility
        } else if (up <= 2 && down > 5) || (down <= 2 && up > 5) {
            NodeRole::Adapter
        } else {
            NodeRole::CoreLogic
        }
    }
}

} // verus!
