//! The semantic IR of an architecture spec: logical nodes, interfaces,
//! transitions, retry loops, invariants and dependencies; its human
//! summary, and the approval contract built from it.
use vstd::prelude::*;
use crate::schema::Language;
use crate::text::{chars_of, owned, push_str, string_of};

verus! {

/// A logical node of the architecture and the file it lives in.
#[derive(Debug, Clone, PartialEq, Eq)]
pub struct LogicalNode {
    pub id: String,
    pub tier: String,
    pub file_path: String,
    pub description: String,
}

/// A symbol a node must provide, with its signature.
#[derive(Debug, Clone, PartialEq, Eq)]
pub struct InterfaceContract {
    pub node_id: String,
    pub symbol: String,
    pub signature: String,
}

/// The kind of a state transition.
#[derive(Debug, Clone, Copy, PartialEq, Eq, Structural)]
pub enum TransitionKind {
    Forward,
    Conditional,
    RetryLoop,
    Rollback,
}

/// A transition between nodes, possibly guarded.
#[derive(Debug, Clone, PartialEq, Eq)]
pub struct StateTransition {
    pub from: String,
    pub to: String,
    pub condition: Option<String>,
    pub kind: TransitionKind,
}

/// A loop back from a failing node to an earlier one.
#[derive(Debug, Clone, PartialEq, Eq)]
pub struct RetryLoop {
    pub trigger_node: String,
    pub target_node: String,
    pub condition: String,
}

/// A rule the architecture must keep.
#[derive(Debug, Clone, PartialEq, Eq)]
pub struct ArchitecturalInvariant {
    pub id: String,
    pub rule: String,
    pub message: String,
}

/// What a target may and may not depend on.
#[derive(Debug, Clone, PartialEq, Eq)]
pub struct DependencyConstraint {
    pub target: String,
    pub allowed_dependencies: Vec<String>,
    pub forbidden_dependencies: Vec<String>,
}

/// The semantic IR of an architecture spec.
#[derive(Debug, Clone, PartialEq, Eq)]
pub struct SemanticSpecIR {
    pub language: Language,
    pub nodes: Vec<LogicalNode>,
    pub interfaces: Vec<InterfaceContract>,
    pub transitions: Vec<StateTransition>,
    pub retry_loops: Vec<RetryLoop>,
    pub invariants: Vec<ArchitecturalInvariant>,
    pub dependencies: Vec<DependencyConstraint>,
}

impl SemanticSpecIR {
    /// Empty, in Rust.
    pub open spec fn is_empty_rust(&self) -> bool {
        &&& self.language == Language::Rust
        &&& self.nodes@.len() == 0
        &&& self.interfaces@.len() == 0
        &&& self.transitions@.len() == 0
        &&& self.retry_loops@.len() == 0
        &&& self.invariants@.len() == 0
        &&& self.dependencies@.len() == 0
    }
}

impl Default for SemanticSpecIR {
    fn default() -> (r: Self)
        ensures
            r.is_empty_rust(),
    {
        SemanticSpecIR {
            language: Language::Rust,
            nodes: Vec::new(),
            interfaces: Vec::new(),
            transitions: Vec::new(),
            retry_loops: Vec::new(),
            invariants: Vec::new(),
            dependencies: Vec::new(),
        }
    }
}

/// The decimal digits of `n`.
pub open spec fn decimal(n: nat) -> Seq<char>
    decreases n,
{
    if n < 10 {
        seq![digit(n)]
    } else {
        decimal(n / 10) + seq![digit(n % 10)]
    }
}

pub open spec fn digit(d: nat) -> char {
    if d == 0 {
        '0'
    } else if d == 1 {
        '1'
    } else if d == 2 {
        '2'
    } else if d == 3 {
        '3'
    } else if d == 4 {
        '4'
    } else if d == 5 {
        '5'
    } else if d == 6 {
        '6'
    } else if d == 7 {
        '7'
    } else if d == 8 {
        '8'
    } else {
        '9'
    }
}

fn digit_char(d: usize) -> (c: char)
    requires
        d < 10,
    ensures
        c == digit(d as nat),
{
    if d == 0 {
        '0'
    } else if d == 1 {
        '1'
    } else if d == 2 {
        '2'
    } else if d == 3 {
        '3'
    } else if d == 4 {
        '4'
    } else if d == 5 {
        '5'
    } else if d == 6 {
        '6'
    } else if d == 7 {
        '7'
    } else if d == 8 {
        '8'
    } else {
        '9'
    }
}

/// `n` in decimal (what `format!("{}", n)` prints).
pub fn decimal_string(n: usize) -> (s: String)
    ensures
        s@ == decimal(n as nat),
    decreases n,
{
    if n < 10 {
        let v = vec![digit_char(n)];
        assert(v@ =~= seq![digit(n as nat)]);
        string_of(&v)
    } else {
        let head = decimal_string(n / 10);
        let mut v = chars_of(head.as_str());
        v.push(digit_char(n % 10));
        string_of(&v)
    }
}

/// How many different texts `s` holds.
pub open spec fn distinct_count(s: Seq<Seq<char>>) -> nat
    decreases s.len(),
{
    if s.len() == 0 {
        0
    } else {
        distinct_count(s.drop_last()) + if s.drop_last().contains(s.last()) {
            0nat
        } else {
            1nat
        }
    }
}

pub open spec fn list_lines<T>(xs: Seq<T>, f: spec_fn(T) -> Seq<char>) -> Seq<char>
    decreases xs.len(),
{
    if xs.len() == 0 {
        seq![]
    } else {
        list_lines(xs.drop_last(), f) + f(xs.last())
    }
}

pub open spec fn node_files(ns: Seq<LogicalNode>) -> Seq<Seq<char>> {
    ns.map_values(|n: LogicalNode| n.file_path@)
}

/// One line of the transition graph.
pub open spec fn transition_line(t: StateTransition) -> Seq<char> {
    match t.condition {
        Some(c) => " -> "@ + t.to@ + " ["@ + c@ + "]\n"@,
        None => " -> "@ + t.to@ + "\n"@,
    }
}

/// The summary shown to the person approving the spec.
pub open spec fn summary_of(ir: SemanticSpecIR) -> Seq<char> {
    "[AXON Semantic Interpretation]\n\n"@ + "Language:\n"@ + "- "@ + ir.language.spec_name() + "\n\n"@
        + "Logical Nodes:\n"@ + "- "@ + decimal(ir.nodes@.len()) + " detected\n\n"@
        + "Physical Files:\n"@ + "- "@ + decimal(distinct_count(node_files(ir.nodes@))) + " planned\n\n"@
        + "Interface Contracts:\n"@ + list_lines(ir.interfaces@, |i: InterfaceContract| "- "@ + i.signature@ + "\n"@) + "\n"@
        + "Runtime Retry Loops:\n"@ + list_lines(ir.retry_loops@, |r: RetryLoop| "- "@ + r.trigger_node@ + " -> "@ + r.target_node@ + "\n"@) + "\n"@
        + "External Dependencies:\n"@ + list_lines(ir.dependencies@, |d: DependencyConstraint| "- "@ + d.target@ + "\n"@) + "\n"@
        + "Architectural Constraints:\n"@ + list_lines(ir.invariants@, |v: ArchitecturalInvariant| "- "@ + v.rule@ + "\n"@) + "\n"@
        + "Transition Graph:\nSTART\n"@ + list_lines(ir.transitions@, |t: StateTransition| transition_line(t))
}

fn distinct_files(ns: &Vec<LogicalNode>) -> (n: usize)
    ensures
        n == distinct_count(node_files(ns@)),
{
    let ghost fs = node_files(ns@);
    let mut n: usize = 0;
    let mut i: usize = 0;
    while i < ns.len()
        invariant
            fs == node_files(ns@),
            i <= ns@.len(),
            n == distinct_count(fs.take(i as int)),
            n <= i,
        decreases ns.len() - i,
    {
        let mut seen = false;
        let mut j: usize = 0;
        while j < i
            invariant
                fs == node_files(ns@),
                j <= i < ns@.len(),
                seen == exists|k: int| 0 <= k < j && fs[k] == fs[i as int],
            decreases i - j,
        {
            assert(fs[j as int] == ns@[j as int].file_path@);
            assert(fs[i as int] == ns@[i as int].file_path@);
            if crate::ordmap::str_eq(ns[j].file_path.as_str(), ns[i].file_path.as_str()) {
                seen = true;
            }
            j += 1;
        }
        proof {
            let t = fs.take(i + 1);
            assert(t.drop_last() =~= fs.take(i as int));
            assert(t.last() == fs[i as int]);
            if seen {
                let k = choose|k: int| 0 <= k < i && fs[k] == fs[i as int];
                assert(fs.take(i as int)[k] == fs[i as int]);
            }
            if fs.take(i as int).contains(fs[i as int]) {
                let k = choose|k: int| 0 <= k < i && fs.take(i as int)[k] == fs[i as int];
                assert(fs[k] == fs[i as int]);
            }
        }
        if !seen {
            n += 1;
        }
        i += 1;
    }
    assert(fs.take(ns@.len() as int) =~= fs);
    n
}

impl SemanticSpecIR {
    /// A plain-text summary: language, node and file counts, interfaces,
    /// retry loops, dependencies, constraints and the transition graph.
    pub fn to_human_readable_summary(&self) -> (s: String)
        ensures
            s@ == summary_of(*self),
    {
        let mut out: Vec<char> = chars_of("[AXON Semantic Interpretation]\n\n");
        push_str(&mut out, "Language:\n");
        push_str(&mut out, "- ");
        push_str(&mut out, self.language.name());
        push_str(&mut out, "\n\n");
        push_str(&mut out, "Logical Nodes:\n");
        push_str(&mut out, "- ");
        push_str(&mut out, decimal_string(self.nodes.len()).as_str());
        push_str(&mut out, " detected\n\n");
        push_str(&mut out, "Physical Files:\n");
        push_str(&mut out, "- ");
        push_str(&mut out, decimal_string(distinct_files(&self.nodes)).as_str());
        push_str(&mut out, " planned\n\n");
        push_str(&mut out, "Interface Contracts:\n");
        let ghost h1 = out@;
        let mut i: usize = 0;
        assert(h1 + list_lines(self.interfaces@.take(0), |x: InterfaceContract| "- "@ + x.signature@ + "\n"@) =~= h1);
        while i < self.interfaces.len()
            invariant
                i <= self.interfaces@.len(),
                out@ == h1 + list_lines(self.interfaces@.take(i as int), |x: InterfaceContract| "- "@ + x.signature@ + "\n"@),
            decreases self.interfaces.len() - i,
        {
            push_str(&mut out, "- ");
            push_str(&mut out, self.interfaces[i].signature.as_str());
            push_str(&mut out, "\n");
            assert(self.interfaces@.take(i + 1).drop_last() =~= self.interfaces@.take(i as int));
            i += 1;
        }
        assert(self.interfaces@.take(self.interfaces@.len() as int) =~= self.interfaces@);
        push_str(&mut out, "\n");
        push_str(&mut out, "Runtime Retry Loops:\n");
        let ghost h2 = out@;
        let mut i: usize = 0;
        assert(h2 + list_lines(self.retry_loops@.take(0), |r: RetryLoop| "- "@ + r.trigger_node@ + " -> "@ + r.target_node@ + "\n"@) =~= h2);
        while i < self.retry_loops.len()
            invariant
                i <= self.retry_loops@.len(),
                out@ == h2 + list_lines(self.retry_loops@.take(i as int), |r: RetryLoop| "- "@ + r.trigger_node@ + " -> "@ + r.target_node@ + "\n"@),
            decreases self.retry_loops.len() - i,
        {
            push_str(&mut out, "- ");
            push_str(&mut out, self.retry_loops[i].trigger_node.as_str());
            push_str(&mut out, " -> ");
            push_str(&mut out, self.retry_loops[i].target_node.as_str());
            push_str(&mut out, "\n");
            assert(self.retry_loops@.take(i + 1).drop_last() =~= self.retry_loops@.take(i as int));
            i += 1;
        }
        assert(self.retry_loops@.take(self.retry_loops@.len() as int) =~= self.retry_loops@);
        push_str(&mut out, "\n");
        push_str(&mut out, "External Dependencies:\n");
        let ghost h3 = out@;
        let mut i: usize = 0;
        assert(h3 + list_lines(self.dependencies@.take(0), |d: DependencyConstraint| "- "@ + d.target@ + "\n"@) =~= h3);
        while i < self.dependencies.len()
            invariant
                i <= self.dependencies@.len(),
                out@ == h3 + list_lines(self.dependencies@.take(i as int), |d: DependencyConstraint| "- "@ + d.target@ + "\n"@),
            decreases self.dependencies.len() - i,
        {
            push_str(&mut out, "- ");
            push_str(&mut out, self.dependencies[i].target.as_str());
            push_str(&mut out, "\n");
            assert(self.dependencies@.take(i + 1).drop_last() =~= self.dependencies@.take(i as int));
            i += 1;
        }
        assert(self.dependencies@.take(self.dependencies@.len() as int) =~= self.dependencies@);
        push_str(&mut out, "\n");
        push_str(&mut out, "Architectural Constraints:\n");
        let ghost h4 = out@;
        let mut i: usize = 0;
        assert(h4 + list_lines(self.invariants@.take(0), |v: ArchitecturalInvariant| "- "@ + v.rule@ + "\n"@) =~= h4);
        while i < self.invariants.len()
            invariant
                i <= self.invariants@.len(),
                out@ == h4 + list_lines(self.invariants@.take(i as int), |v: ArchitecturalInvariant| "- "@ + v.rule@ + "\n"@),
            decreases self.invariants.len() - i,
        {
            push_str(&mut out, "- ");
            push_str(&mut out, self.invariants[i].rule.as_str());
            push_str(&mut out, "\n");
            assert(self.invariants@.take(i + 1).drop_last() =~= self.invariants@.take(i as int));
            i += 1;
        }
        assert(self.invariants@.take(self.invariants@.len() as int) =~= self.invariants@);
        push_str(&mut out, "\n");
        push_str(&mut out, "Transition Graph:\nSTART\n");
        let ghost h5 = out@;
        let mut i: usize = 0;
        assert(h5 + list_lines(self.transitions@.take(0), |t: StateTransition| transition_line(t)) =~= h5);
        while i < self.transitions.len()
            invariant
                i <= self.transitions@.len(),
                out@ == h5 + list_lines(self.transitions@.take(i as int), |t: StateTransition| transition_line(t)),
            decreases self.transitions.len() - i,
        {
            let t = &self.transitions[i];
            match &t.condition {
                Some(c) => {
                    push_str(&mut out, " -> ");
                    push_str(&mut out, t.to.as_str());
                    push_str(&mut out, " [");
                    push_str(&mut out, c.as_str());
                    push_str(&mut out, "]\n");
                },
                None => {
                    push_str(&mut out, " -> ");
                    push_str(&mut out, t.to.as_str());
                    push_str(&mut out, "\n");
                },
            }
            assert(self.transitions@.take(i + 1).drop_last() =~= self.transitions@.take(i as int));
            i += 1;
        }
        assert(self.transitions@.take(self.transitions@.len() as int) =~= self.transitions@);
        proof {
            assert(out@ =~= summary_of(*self));
        }
        string_of(&out)
    }
}

/// What the person approving a spec signs: the hashes, the summary, the counts
/// and the dependency targets.
#[derive(Debug, Clone, PartialEq, Eq)]
pub struct ApprovalContract {
    pub semantic_ir_hash: String,
    pub transition_graph_hash: String,
    pub contract_hash: String,
    pub human_summary: String,
    pub logical_nodes_count: usize,
    pub interfaces_count: usize,
    pub transitions_count: usize,
    pub retry_loops_count: usize,
    pub dependencies: Vec<String>,
}

impl ApprovalContract {
    /// The contract for an IR: every hash is `base_hash`.
    pub fn from_ir(ir: &SemanticSpecIR, base_hash: &str) -> (c: Self)
        ensures
            c.semantic_ir_hash@ == base_hash@,
            c.transition_graph_hash@ == base_hash@,
            c.contract_hash@ == base_hash@,
            c.human_summary@ == summary_of(*ir),
            c.logical_nodes_count == ir.nodes@.len(),
            c.interfaces_count == ir.interfaces@.len(),
            c.transitions_count == ir.transitions@.len(),
            c.retry_loops_count == ir.retry_loops@.len(),
            c.dependencies.deep_view() == ir.dependencies@.map_values(|d: DependencyConstraint| d.target@),
    {
        let mut deps: Vec<String> = Vec::new();
        let mut i: usize = 0;
        while i < ir.dependencies.len()
            invariant
                i <= ir.dependencies@.len(),
                deps.deep_view() == ir.dependencies@.map_values(|d: DependencyConstraint| d.target@).take(i as int),
            decreases ir.dependencies.len() - i,
        {
            crate::text::push_piece_string(&mut deps, ir.dependencies[i].target.clone());
            assert(ir.dependencies@.map_values(|d: DependencyConstraint| d.target@).take(i + 1)
                =~= ir.dependencies@.map_values(|d: DependencyConstraint| d.target@).take(i as int).push(ir.dependencies@[i as int].target@));
            i += 1;
        }
        assert(ir.dependencies@.map_values(|d: DependencyConstraint| d.target@).take(ir.dependencies@.len() as int)
            =~= ir.dependencies@.map_values(|d: DependencyConstraint| d.target@));
        ApprovalContract {
            semantic_ir_hash: owned(base_hash),
            transition_graph_hash: owned(base_hash),
            contract_hash: owned(base_hash),
            human_summary: ir.to_human_readable_summary(),
            logical_nodes_count: ir.nodes.len(),
            interfaces_count: ir.interfaces.len(),
            transitions_count: ir.transitions.len(),
            retry_loops_count: ir.retry_loops.len(),
            dependencies: deps,
        }
    }
}

} // verus!
