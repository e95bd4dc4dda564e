//! The module topology of a project: for each file, what it imports, what
//! imports it and what kind of unit it is; a build order in which every
//! module follows the modules it imports; and the checks of a Rust crate
//! and of C translation units.
use vstd::prelude::*;
use crate::ordmap::{keys_of, lex_lt, lemma_lex_irreflexive, lookup, sorted_keys, StrMap, StrSet, str_eq};
use crate::schema::{Component, Language};
use crate::text::{
    chars_of, concat_strs, contains, debug_nested_list, debug_string_list, debug_string_lists,
    debug_strings, ends_with, lowercase, owned, push_str, str_contains, str_ends_with, string_of,
    to_lower, trim_end_matches, trim_end_matches_chars,
};

verus! {

/// What kind of unit a module is, for its language.
pub struct TopologyMeta {
    /// A crate entry (`main.rs` or `lib.rs`), or the program's entry.
    pub is_crate_entry: bool,
    /// A module declaration file (`mod.rs`, `__init__.py`).
    pub is_mod_decl: bool,
    /// The declared module path.
    pub mod_path: Option<String>,
    /// A C header.
    pub is_header: bool,
    /// The translation unit that owns a header.
    pub owner_translation_unit: Option<String>,
    /// The unit that holds the program's entry.
    pub is_compile_entry: bool,
}

impl Default for TopologyMeta {
    fn default() -> (r: Self)
        ensures
            !r.is_crate_entry && !r.is_mod_decl && r.mod_path is None && !r.is_header
                && r.owner_translation_unit is None && !r.is_compile_entry,
    {
        TopologyMeta {
            is_crate_entry: false,
            is_mod_decl: false,
            mod_path: None,
            is_header: false,
            owner_translation_unit: None,
            is_compile_entry: false,
        }
    }
}

/// One module: its path, the modules it imports, those that import it, and its kind.
pub struct ModuleTopology {
    pub file_path: String,
    pub depends_on: StrSet,
    pub depended_by: StrSet,
    pub meta: TopologyMeta,
}

impl Default for ModuleTopology {
    fn default() -> (r: Self)
        ensures
            r.file_path@ == Seq::<char>::empty(),
            r.depends_on.view() == Seq::<Seq<char>>::empty(),
            r.depended_by.view() == Seq::<Seq<char>>::empty(),
            !r.meta.is_crate_entry && !r.meta.is_mod_decl && r.meta.mod_path is None && !r.meta.is_header
                && r.meta.owner_translation_unit is None && !r.meta.is_compile_entry,
    {
        let p = String::new();
        assert(p@ =~= Seq::<char>::empty());
        ModuleTopology { file_path: p, depends_on: StrSet::new(), depended_by: StrSet::new(), meta: TopologyMeta::default() }
    }
}

/// The topology of a project.
pub struct ProjectTopology {
    /// The modules by path.
    pub modules: StrMap<ModuleTopology>,
    /// The modules, each after the modules it imports.
    pub build_order: Vec<String>,
    /// The modules that import themselves, one cycle each.
    pub cycles: Vec<Vec<String>>,
}

impl Default for ProjectTopology {
    fn default() -> (r: Self)
        ensures
            r.modules.view().len() == 0,
            r.build_order@.len() == 0,
            r.cycles@.len() == 0,
    {
        ProjectTopology { modules: StrMap::new(), build_order: Vec::new(), cycles: Vec::new() }
    }
}

// ---------------------------------------------------------------------------
// The kind of a module
// ---------------------------------------------------------------------------

/// The translation unit owning a C header: the header's path with `.h`
/// (then `.hpp`) trimmed off its end and `.c` added, where that is a component.
pub open spec fn owner_of(path: Seq<char>, keys: Seq<Seq<char>>) -> Option<Seq<char>> {
    let c = trim_end_matches(trim_end_matches(path, ".h"@), ".hpp"@) + ".c"@;
    if keys.contains(c) {
        Some(c)
    } else {
        None
    }
}

/// The kind of the module at `path` (lowercased for the tests on its name).
pub open spec fn meta_is(m: TopologyMeta, path: Seq<char>, c: Component, language: Language, keys: Seq<Seq<char>>) -> bool {
    let p = lowercase(path);
    let own = match m.owner_translation_unit {
        Some(o) => Some(o@),
        None => None,
    };
    &&& m.mod_path is None
    &&& m.is_compile_entry == c.is_entrypoint
    &&& match language {
        Language::Rust | Language::Cpp => {
            &&& m.is_crate_entry == (c.is_entrypoint || contains(p, "main.rs"@) || contains(p, "lib.rs"@))
            &&& m.is_mod_decl == ends_with(p, "mod.rs"@)
            &&& !m.is_header
            &&& own is None
        },
        Language::C => {
            &&& !m.is_crate_entry
            &&& !m.is_mod_decl
            &&& m.is_header == (ends_with(p, ".h"@) || ends_with(p, ".hpp"@))
            &&& own == if ends_with(p, ".h"@) {
                owner_of(path, keys)
            } else {
                None
            }
        },
        Language::Python => {
            &&& m.is_crate_entry == (c.is_entrypoint || contains(p, "main.py"@))
            &&& m.is_mod_decl == contains(p, "__init__.py"@)
            &&& !m.is_header
            &&& own is None
        },
    }
}

fn meta_for(path: &str, c: &Component, language: Language, components: &StrMap<Component>) -> (m: TopologyMeta)
    ensures
        meta_is(m, path@, *c, language, keys_of(components.view())),
{
    let p = to_lower(path);
    let ps = p.as_str();
    match language {
        Language::Rust | Language::Cpp => TopologyMeta {
            is_crate_entry: c.is_entrypoint || str_contains(ps, "main.rs") || str_contains(ps, "lib.rs"),
            is_mod_decl: str_ends_with(ps, "mod.rs"),
            mod_path: None,
            is_header: false,
            owner_translation_unit: None,
            is_compile_entry: c.is_entrypoint,
        },
        Language::C => {
            let owner = if str_ends_with(ps, ".h") {
                let pv = chars_of(path);
                let a = trim_end_matches_chars(&pv, &chars_of(".h"));
                let mut stem = trim_end_matches_chars(&a, &chars_of(".hpp"));
                push_str(&mut stem, ".c");
                let cp = string_of(&stem);
                if components.contains_key(cp.as_str()) {
                    proof {
                        crate::ordmap::lemma_keys_contains(components.view(), cp@);
                    }
                    Some(cp)
                } else {
                    proof {
                        crate::ordmap::lemma_keys_contains(components.view(), cp@);
                    }
                    None
                }
            } else {
                None
            };
            TopologyMeta {
                is_crate_entry: false,
                is_mod_decl: false,
                mod_path: None,
                is_header: str_ends_with(ps, ".h") || str_ends_with(ps, ".hpp"),
                owner_translation_unit: owner,
                is_compile_entry: c.is_entrypoint,
            }
        },
        Language::Python => TopologyMeta {
            is_crate_entry: c.is_entrypoint || str_contains(ps, "main.py"),
            is_mod_decl: str_contains(ps, "__init__.py"),
            mod_path: None,
            is_header: false,
            owner_translation_unit: None,
            is_compile_entry: c.is_entrypoint,
        },
    }
}

// ---------------------------------------------------------------------------
// Import edges
// ---------------------------------------------------------------------------

/// What a component depends on: what it imports and the includes it is
/// allowed.
pub open spec fn declared_deps(c: Component) -> Set<Seq<char>> {
    c.imports.view().to_set() + c.allowed_includes.view().to_set()
}

/// The components that depend on the component at position `i`.
pub open spec fn importers(cs: Seq<(Seq<char>, Component)>, i: int) -> Set<Seq<char>> {
    Set::new(|x: Seq<char>| exists|j: int| 0 <= j < cs.len() && #[trigger] cs[j].0 == x && declared_deps(cs[j].1).contains(cs[i].0))
}

/// The dependencies of a component as a set of paths.
fn deps_of(c: &Component) -> (r: StrSet)
    ensures
        r.view().to_set() == declared_deps(*c),
{
    let mut r = c.imports.duplicate();
    let extra = c.allowed_includes.to_vec();
    let ghost base = c.imports.view().to_set();
    let ghost av = c.allowed_includes.view();
    let mut k: usize = 0;
    while k < extra.len()
        invariant
            extra.deep_view() == av,
            k <= av.len(),
            r.view().to_set() == base + av.take(k as int).to_set(),
        decreases extra.len() - k,
    {
        let ghost before = r.view().to_set();
        r.insert(owned(extra[k].as_str()));
        proof {
            assert(extra.deep_view()[k as int] == extra@[k as int]@);
            assert(av.take(k + 1) =~= av.take(k as int).push(av[k as int]));
            av.take(k as int).lemma_push_to_set_commute(av[k as int]);
            assert(r.view().to_set() =~= base + av.take(k + 1).to_set());
        }
        k += 1;
    }
    assert(av.take(av.len() as int) =~= av);
    r
}

fn importers_of(components: &StrMap<Component>, i: usize) -> (r: StrSet)
    requires
        i < components.view().len(),
    ensures
        r.view().to_set() == importers(components.view(), i as int),
{
    let ghost cs = components.view();
    let key = components.key_at(i);
    let mut r = StrSet::new();
    let mut j: usize = 0;
    while j < components.len()
        invariant
            cs == components.view(),
            i < cs.len(),
            key@ == cs[i as int].0,
            j <= cs.len(),
            r.view().to_set() == Set::new(|x: Seq<char>| exists|k: int| 0 <= k < j && #[trigger] cs[k].0 == x && declared_deps(cs[k].1).contains(cs[i as int].0)),
        decreases cs.len() - j,
    {
        let ghost before = r.view().to_set();
        let cj = components.value_at(j);
        if cj.imports.contains(key.as_str()) || cj.allowed_includes.contains(key.as_str()) {
            r.insert(owned(components.key_at(j).as_str()));
        }
        proof {
            let after = Set::new(|x: Seq<char>| exists|k: int| 0 <= k < j + 1 && #[trigger] cs[k].0 == x && declared_deps(cs[k].1).contains(cs[i as int].0));
            assert forall|x: Seq<char>| r.view().to_set().contains(x) <==> after.contains(x) by {
                if after.contains(x) {
                    let k = choose|k: int| 0 <= k < j + 1 && #[trigger] cs[k].0 == x && declared_deps(cs[k].1).contains(cs[i as int].0);
                    if k < j {
                        assert(before.contains(x));
                    }
                }
                if before.contains(x) {
                    let k = choose|k: int| 0 <= k < j && #[trigger] cs[k].0 == x && declared_deps(cs[k].1).contains(cs[i as int].0);
                    assert(after.contains(x));
                }
            }
            assert(r.view().to_set() =~= after);
        }
        j += 1;
    }
    proof {
        assert(r.view().to_set() =~= importers(cs, i as int));
    }
    r
}

// ---------------------------------------------------------------------------
// The build order
// ---------------------------------------------------------------------------

/// Module `i` imports module `j` (both positions among the modules).
pub open spec fn dep_on(ms: Seq<(Seq<char>, ModuleTopology)>, i: int, j: int) -> bool {
    0 <= i < ms.len() && 0 <= j < ms.len() && ms[i].1.depends_on.view().contains(ms[j].0)
}

/// How many of the first `n` modules module `i` imports that are not yet placed.
pub open spec fn open_deps(ms: Seq<(Seq<char>, ModuleTopology)>, i: int, done: Set<int>, n: int) -> nat
    decreases n,
{
    if n <= 0 {
        0
    } else {
        open_deps(ms, i, done, n - 1) + if dep_on(ms, i, n - 1) && !done.contains(n - 1) {
            1nat
        } else {
            0nat
        }
    }
}

proof fn lemma_open_deps_bound(ms: Seq<(Seq<char>, ModuleTopology)>, i: int, done: Set<int>, n: int)
    ensures
        open_deps(ms, i, done, n) <= if n > 0 { n } else { 0 },
    decreases n,
{
    if n > 0 {
        lemma_open_deps_bound(ms, i, done, n - 1);
    }
}

proof fn lemma_open_deps_insert(ms: Seq<(Seq<char>, ModuleTopology)>, i: int, done: Set<int>, x: int, n: int)
    ensures
        open_deps(ms, i, done.insert(x), n) + (if 0 <= x < n && dep_on(ms, i, x) && !done.contains(x) {
            1nat
        } else {
            0nat
        }) == open_deps(ms, i, done, n),
    decreases n,
{
    if n > 0 {
        lemma_open_deps_insert(ms, i, done, x, n - 1);
    }
}

proof fn lemma_open_deps_zero(ms: Seq<(Seq<char>, ModuleTopology)>, i: int, done: Set<int>, n: int, j: int)
    requires
        open_deps(ms, i, done, n) == 0,
        0 <= j < n,
        dep_on(ms, i, j),
    ensures
        done.contains(j),
    decreases n,
{
    if j < n - 1 {
        lemma_open_deps_zero(ms, i, done, n - 1, j);
    }
}

proof fn lemma_open_deps_witness(ms: Seq<(Seq<char>, ModuleTopology)>, i: int, done: Set<int>, n: int) -> (j: int)
    requires
        open_deps(ms, i, done, n) > 0,
    ensures
        0 <= j < n,
        dep_on(ms, i, j),
        !done.contains(j),
    decreases n,
{
    if dep_on(ms, i, n - 1) && !done.contains(n - 1) {
        n - 1
    } else {
        lemma_open_deps_witness(ms, i, done, n - 1)
    }
}

/// A build order by positions: no module twice, each after every module it
/// imports, and each module left out imports a module left out.
pub open spec fn index_order(ms: Seq<(Seq<char>, ModuleTopology)>, out: Seq<int>) -> bool {
    &&& out.no_duplicates()
    &&& forall|k: int| 0 <= k < out.len() ==> 0 <= #[trigger] out[k] < ms.len()
    &&& forall|k: int, j: int|
        #![trigger dep_on(ms, out[k], j)]
        0 <= k < out.len() && dep_on(ms, out[k], j) ==> exists|p: int| 0 <= p < k && #[trigger] out[p] == j
    &&& forall|i: int|
        0 <= i < ms.len() && !(#[trigger] out.contains(i)) ==> exists|j: int| #[trigger] dep_on(ms, i, j) && !out.contains(j)
}

/// The modules among the first `m` that import no module, in path order:
/// where Kahn's queue starts.
pub open spec fn kahn_roots(ms: Seq<(Seq<char>, ModuleTopology)>, m: int) -> Seq<int>
    decreases m,
{
    if m <= 0 {
        seq![]
    } else {
        kahn_roots(ms, m - 1) + if open_deps(ms, m - 1, Set::empty(), ms.len() as int) == 0 {
            seq![m - 1]
        } else {
            seq![]
        }
    }
}

/// The modules among the first `m`, in path order, that placing `node`
/// after the modules `done` frees: they import `node`, and every module they
/// import is then placed.
pub open spec fn kahn_released(ms: Seq<(Seq<char>, ModuleTopology)>, done: Set<int>, node: int, m: int) -> Seq<int>
    decreases m,
{
    if m <= 0 {
        seq![]
    } else {
        kahn_released(ms, done, node, m - 1) + if dep_on(ms, m - 1, node) && open_deps(
            ms,
            m - 1,
            done.insert(node),
            ms.len() as int,
        ) == 0 {
            seq![m - 1]
        } else {
            seq![]
        }
    }
}

/// Kahn's queue, from the `head`-th entry on: each entry in turn is placed
/// and the modules it frees join the back of the queue (at most `fuel`
/// steps).
pub open spec fn kahn_from(ms: Seq<(Seq<char>, ModuleTopology)>, queue: Seq<int>, head: int, fuel: nat) -> Seq<int>
    decreases fuel,
{
    if fuel == 0 || head < 0 || head >= queue.len() {
        queue
    } else {
        kahn_from(
            ms,
            queue + kahn_released(ms, queue.take(head).to_set(), queue[head], ms.len() as int),
            head + 1,
            (fuel - 1) as nat,
        )
    }
}

/// Kahn's order of the modules, by position: the modules that import none
/// first, in path order; then, as each placed module frees the modules
/// whose imports are all placed, those in path order behind the waiting
/// ones.
pub open spec fn kahn(ms: Seq<(Seq<char>, ModuleTopology)>) -> Seq<int> {
    kahn_from(ms, kahn_roots(ms, ms.len() as int), 0, (ms.len() + 1) as nat)
}

fn imports_module(modules: &StrMap<ModuleTopology>, i: usize, j: usize) -> (b: bool)
    requires
        i < modules.view().len(),
        j < modules.view().len(),
    ensures
        b == dep_on(modules.view(), i as int, j as int),
{
    modules.value_at(i).depends_on.contains(modules.key_at(j).as_str())
}

/// Kahn's order: the modules that import no module first, in path order;
/// each placed module releases, in path order, the modules whose imports
/// are then all placed, which queue behind those already waiting.
#[verifier::rlimit(40)]
fn kahn_order(modules: &StrMap<ModuleTopology>) -> (out: Vec<usize>)
    ensures
        index_order(modules.view(), out@.map_values(|x: usize| x as int)),
        out@.map_values(|x: usize| x as int) == kahn(modules.view()),
{
    let ghost ms = modules.view();
    let n = modules.len();
    // the number of modules each module imports
    let mut deg: Vec<usize> = Vec::new();
    let mut i: usize = 0;
    while i < n
        invariant
            ms == modules.view(),
            n == ms.len(),
            i <= n,
            deg@.len() == i,
            forall|a: int| 0 <= a < i ==> #[trigger] deg@[a] == open_deps(ms, a, Set::empty(), n as int),
        decreases n - i,
    {
        let mut c: usize = 0;
        let mut j: usize = 0;
        while j < n
            invariant
                ms == modules.view(),
                n == ms.len(),
                i < n,
                j <= n,
                c == open_deps(ms, i as int, Set::empty(), j as int),
            decreases n - j,
        {
            proof {
                lemma_open_deps_bound(ms, i as int, Set::empty(), j as int);
            }
            if imports_module(modules, i, j) {
                c = c + 1;
            }
            j += 1;
        }
        deg.push(c);
        i += 1;
    }
    // the modules that import none, in path order
    let mut queue: Vec<usize> = Vec::new();
    let mut a: usize = 0;
    while a < n
        invariant
            ms == modules.view(),
            n == ms.len(),
            a <= n,
            deg@.len() == n,
            forall|x: int| 0 <= x < n ==> #[trigger] deg@[x] == open_deps(ms, x, Set::empty(), n as int),
            queue@.no_duplicates(),
            forall|k: int| 0 <= k < queue@.len() ==> (#[trigger] queue@[k] < a && deg@[queue@[k] as int] == 0),
            forall|x: int| 0 <= x < a && deg@[x] == 0 ==> queue@.contains(x as usize),
            queue@.map_values(|x: usize| x as int) == kahn_roots(ms, a as int),
        decreases n - a,
    {
        let ghost q0 = queue@;
        if deg[a] == 0 {
            queue.push(a);
            proof {
                assert(queue@[queue@.len() - 1] == a);
            }
        }
        proof {
            assert(queue@.map_values(|x: usize| x as int) =~= kahn_roots(ms, a + 1));
        }
        proof {
            assert forall|x: int| 0 <= x < a + 1 && deg@[x] == 0 implies queue@.contains(x as usize) by {
                if x < a {
                    let k = choose|k: int| 0 <= k < q0.len() && q0[k] == x as usize;
                    assert(queue@[k] == q0[k]);
                }
            }
        }
        a += 1;
    }
    let mut head: usize = 0;
    let ghost mut done: Set<int> = Set::empty();
    proof {
        assert(queue@.take(0).map_values(|x: usize| x as int).to_set() =~= done);
    }
    proof {
        assert(kahn_roots(ms, n as int) == queue@.map_values(|x: usize| x as int));
    }
    while head < queue.len()
        invariant
            ms == modules.view(),
            n == ms.len(),
            deg@.len() == n,
            head <= queue@.len(),
            head <= n,
            kahn(ms) == kahn_from(ms, queue@.map_values(|x: usize| x as int), head as int, (n + 1 - head) as nat),
            queue@.no_duplicates(),
            forall|k: int| 0 <= k < queue@.len() ==> #[trigger] queue@[k] < n,
            done == queue@.take(head as int).map_values(|x: usize| x as int).to_set(),
            done.finite(),
            done.len() == head,
            forall|x: int| 0 <= x < n ==> #[trigger] deg@[x] == open_deps(ms, x, done, n as int),
            forall|k: int| head <= k < queue@.len() ==> deg@[#[trigger] queue@[k] as int] == 0,
            forall|x: int| 0 <= x < n && !done.contains(x) && deg@[x] == 0 ==> queue@.contains(x as usize),
            forall|k: int, j: int|
                #![trigger dep_on(ms, queue@[k] as int, j)]
                0 <= k < head && dep_on(ms, queue@[k] as int, j) ==> exists|p: int| 0 <= p < k && #[trigger] queue@[p] as int == j,
        decreases n - head,
    {
        let node = queue[head];
        proof {
            // `node` is not placed yet
            if done.contains(node as int) {
                let p = choose|p: int| 0 <= p < head && queue@[p] as int == node as int;
                assert(queue@[p] == queue@[head as int]);
            }
            // every module it imports is placed
            assert forall|j: int| dep_on(ms, node as int, j) implies exists|p: int| 0 <= p < head && #[trigger] queue@[p] as int == j by {
                lemma_open_deps_zero(ms, node as int, done, n as int, j);
                let t = queue@.take(head as int).map_values(|x: usize| x as int);
                assert(t.to_set().contains(j));
                let p = choose|p: int| 0 <= p < t.len() && t[p] == j;
                assert(queue@[p] as int == j);
            }
            // the placed modules are fewer than all
            vstd::set_lib::lemma_int_range(0, n as int);
            assert forall|x: int| done.insert(node as int).contains(x) implies vstd::set_lib::set_int_range(0, n as int).contains(x) by {
                if x != node as int {
                    let t = queue@.take(head as int).map_values(|y: usize| y as int);
                    let p = choose|p: int| 0 <= p < t.len() && t[p] == x;
                    assert(queue@[p] < n);
                }
            }
            vstd::set_lib::lemma_len_subset(done.insert(node as int), vstd::set_lib::set_int_range(0, n as int));
        }
        let ghost old_queue = queue@;
        let ghost old_deg = deg@;
        let ghost new_done = done.insert(node as int);
        // release the modules that import `node`
        let mut m: usize = 0;
        while m < n
            invariant
                ms == modules.view(),
                n == ms.len(),
                node < n,
                !done.contains(node as int),
                new_done == done.insert(node as int),
                deg@.len() == n,
                old_deg.len() == n,
                head < old_queue.len(),
                old_queue[head as int] == node,
                m <= n,
                queue@.len() >= old_queue.len(),
                queue@.take(old_queue.len() as int) == old_queue,
                queue@.map_values(|x: usize| x as int) == old_queue.map_values(|x: usize| x as int)
                    + kahn_released(ms, done, node as int, m as int),
                queue@.no_duplicates(),
                forall|k: int| 0 <= k < queue@.len() ==> #[trigger] queue@[k] < n,
                forall|k: int| old_queue.len() <= k < queue@.len() ==> #[trigger] queue@[k] < m,
                forall|x: int| 0 <= x < n ==> #[trigger] old_deg[x] == open_deps(ms, x, done, n as int),
                forall|x: int| 0 <= x < m ==> #[trigger] deg@[x] == open_deps(ms, x, new_done, n as int),
                forall|x: int| m <= x < n ==> #[trigger] deg@[x] == old_deg[x],
                forall|k: int| head <= k < old_queue.len() ==> old_deg[#[trigger] old_queue[k] as int] == 0,
                forall|k: int| head < k < queue@.len() ==> deg@[#[trigger] queue@[k] as int] == 0,
                forall|x: int| 0 <= x < n && !done.contains(x) && old_deg[x] == 0 ==> old_queue.contains(x as usize),
                forall|x: int| 0 <= x < m && !new_done.contains(x) && deg@[x] == 0 ==> queue@.contains(x as usize),
                done == old_queue.take(head as int).map_values(|x: usize| x as int).to_set(),
                forall|k: int, j: int|
                    #![trigger dep_on(ms, old_queue[k] as int, j)]
                    0 <= k < head && dep_on(ms, old_queue[k] as int, j) ==> exists|p: int| 0 <= p < k && #[trigger] old_queue[p] as int == j,
            decreases n - m,
        {
            proof {
                lemma_open_deps_insert(ms, m as int, done, node as int, n as int);
                lemma_open_deps_bound(ms, m as int, done, n as int);
            }
            let ghost q_before = queue@;
            if imports_module(modules, m, node) {
                // `m` imports `node`, which was not placed, so it was waiting on it
                let d = deg[m] - 1;
                deg.set(m, d);
                if d == 0 {
                    proof {
                        // `m` is not queued yet: queued modules wait on nothing
                        if queue@.contains(m) {
                            let k = choose|k: int| 0 <= k < queue@.len() && queue@[k] == m;
                            if k < old_queue.len() {
                                assert(queue@[k] == old_queue[k]);
                                if k < head {
                                    // a placed module imports only placed modules
                                    assert(dep_on(ms, old_queue[k] as int, node as int));
                                    let p = choose|p: int| 0 <= p < k && #[trigger] old_queue[p] as int == node as int;
                                    assert(old_queue.take(head as int).map_values(|x: usize| x as int)[p] == node as int);
                                } else {
                                    assert(old_deg[m as int] == 0);
                                }
                            }
                        }
                    }
                    let ghost q0 = queue@;
                    queue.push(m);
                    proof {
                        assert(queue@.take(old_queue.len() as int) =~= q0.take(old_queue.len() as int));
                        assert(queue@[queue@.len() - 1] == m);
                    }
                }
            }
            proof {
                let qb = q_before.map_values(|x: usize| x as int);
                if queue@.len() > q_before.len() {
                    assert(queue@ =~= q_before.push(m));
                    assert(dep_on(ms, m as int, node as int) && open_deps(ms, m as int, new_done, n as int) == 0);
                    assert(queue@.map_values(|x: usize| x as int) =~= qb.push(m as int));
                } else {
                    assert(queue@ =~= q_before);
                    assert(!(dep_on(ms, m as int, node as int) && open_deps(ms, m as int, new_done, n as int) == 0));
                }
                assert(queue@.map_values(|x: usize| x as int) =~= old_queue.map_values(|x: usize| x as int)
                    + kahn_released(ms, done, node as int, m + 1));
                assert forall|x: int| 0 <= x < m + 1 && !new_done.contains(x) && deg@[x] == 0 implies queue@.contains(x as usize) by {
                    if x < m {
                        let k = choose|k: int| 0 <= k < q_before.len() && q_before[k] == x as usize;
                        assert(queue@[k] == q_before[k]);
                    } else if queue@.len() == q_before.len() {
                        assert(old_deg[x] == 0);
                        let k = choose|k: int| 0 <= k < old_queue.len() && old_queue[k] == x as usize;
                        assert(queue@[k] == old_queue[k]);
                    }
                }
            }
            m += 1;
        }
        proof {
            // the placed modules now include `node`
            let t0 = old_queue.take(head as int).map_values(|x: usize| x as int);
            let t1 = queue@.take(head + 1).map_values(|x: usize| x as int);
            assert(t1 =~= t0.push(node as int));
            t0.lemma_push_to_set_commute(node as int);
            assert forall|k: int, j: int|
                #![trigger dep_on(ms, queue@[k] as int, j)]
                0 <= k < head + 1 && dep_on(ms, queue@[k] as int, j) implies exists|p: int| 0 <= p < k && #[trigger] queue@[p] as int == j by {
                assert(queue@[k] == old_queue[k]);
                if k < head {
                    let p = choose|p: int| 0 <= p < k && #[trigger] old_queue[p] as int == j;
                    assert(queue@[p] == old_queue[p]);
                }
            }
            assert forall|x: int| 0 <= x < n && !new_done.contains(x) && deg@[x] == 0 implies queue@.contains(x as usize) by {}
            // one step of Kahn's queue
            let oq = old_queue.map_values(|x: usize| x as int);
            assert(old_queue.take(head as int).map_values(|x: usize| x as int) =~= oq.take(head as int));
            assert(oq[head as int] == node as int);
            assert(kahn_from(ms, oq, head as int, (n + 1 - head) as nat) == kahn_from(
                ms,
                oq + kahn_released(ms, done, node as int, n as int),
                head + 1,
                (n - head) as nat,
            ));
        }
        head += 1;
        proof {
            done = new_done;
        }
    }
    proof {
        let ov = queue@.map_values(|x: usize| x as int);
        assert(queue@.take(head as int) =~= queue@);
        assert(kahn_from(ms, ov, head as int, (n + 1 - head) as nat) == ov);
        assert forall|k: int, j: int|
            #![trigger dep_on(ms, ov[k], j)]
            0 <= k < ov.len() && dep_on(ms, ov[k], j) implies exists|p: int| 0 <= p < k && #[trigger] ov[p] == j by {
            let p = choose|p: int| 0 <= p < k && #[trigger] queue@[p] as int == j;
            assert(ov[p] == j);
        }
        assert forall|i: int| 0 <= i < ms.len() && !(#[trigger] ov.contains(i)) implies exists|j: int| #[trigger] dep_on(ms, i, j) && !ov.contains(j) by {
            assert(!done.contains(i)) by {
                if done.contains(i) {
                    let t = queue@.take(head as int).map_values(|x: usize| x as int);
                    let p = choose|p: int| 0 <= p < t.len() && t[p] == i;
                    assert(ov[p] == i);
                }
            }
            if deg@[i] == 0 {
                let k = choose|k: int| 0 <= k < queue@.len() && queue@[k] == i as usize;
                assert(ov[k] == i);
            }
            let j = lemma_open_deps_witness(ms, i, done, n as int);
            if ov.contains(j) {
                let p = choose|p: int| 0 <= p < ov.len() && ov[p] == j;
                let t = queue@.take(head as int).map_values(|x: usize| x as int);
                assert(t[p] == j);
            }
        }
        assert forall|a: int, b: int| 0 <= a < ov.len() && 0 <= b < ov.len() && a != b implies ov[a] != ov[b] by {
            assert(queue@[a] != queue@[b]);
        }
    }
    queue
}

/// A build order of modules, by path: no module twice, each after every
/// module it imports, and each module left out imports a module left out
/// (so the order holds exactly the modules that reach no import cycle).
pub open spec fn valid_build_order(ms: Seq<(Seq<char>, ModuleTopology)>, r: Seq<Seq<char>>) -> bool {
    &&& r.no_duplicates()
    &&& forall|k: int| 0 <= k < r.len() ==> keys_of(ms).contains(#[trigger] r[k])
    &&& forall|k: int, i: int, j: int|
        #![trigger r[k], dep_on(ms, i, j)]
        0 <= k < r.len() && 0 <= i < ms.len() && ms[i].0 == r[k] && dep_on(ms, i, j) ==> exists|p: int|
            0 <= p < k && #[trigger] r[p] == ms[j].0
    &&& forall|i: int|
        0 <= i < ms.len() && !r.contains(#[trigger] ms[i].0) ==> exists|j: int| #[trigger] dep_on(ms, i, j) && !r.contains(ms[j].0)
}

/// The paths of modules at the positions of an order.
pub open spec fn paths_at(ms: Seq<(Seq<char>, ModuleTopology)>, out: Seq<int>) -> Seq<Seq<char>> {
    out.map_values(|x: int| ms[x].0)
}

proof fn lemma_keys_distinct(ms: Seq<(Seq<char>, ModuleTopology)>, a: int, b: int)
    requires
        sorted_keys(ms),
        0 <= a < ms.len(),
        0 <= b < ms.len(),
        ms[a].0 == ms[b].0,
    ensures
        a == b,
{
    if a < b {
        assert(lex_lt(ms[a].0, ms[b].0));
        lemma_lex_irreflexive(ms[a].0);
    } else if b < a {
        assert(lex_lt(ms[b].0, ms[a].0));
        lemma_lex_irreflexive(ms[a].0);
    }
}

proof fn lemma_paths_order(ms: Seq<(Seq<char>, ModuleTopology)>, out: Seq<int>)
    requires
        sorted_keys(ms),
        index_order(ms, out),
    ensures
        valid_build_order(ms, paths_at(ms, out)),
{
    let r = paths_at(ms, out);
    assert forall|a: int, b: int| 0 <= a < r.len() && 0 <= b < r.len() && a != b implies r[a] != r[b] by {
        if r[a] == r[b] {
            lemma_keys_distinct(ms, out[a], out[b]);
        }
    }
    assert forall|k: int| 0 <= k < r.len() implies keys_of(ms).contains(#[trigger] r[k]) by {
        assert(keys_of(ms)[out[k]] == r[k]);
    }
    assert forall|k: int, i: int, j: int|
        #![trigger r[k], dep_on(ms, i, j)]
        0 <= k < r.len() && 0 <= i < ms.len() && ms[i].0 == r[k] && dep_on(ms, i, j) implies exists|p: int|
            0 <= p < k && #[trigger] r[p] == ms[j].0 by {
        lemma_keys_distinct(ms, i, out[k]);
        assert(dep_on(ms, out[k], j));
        let p = choose|p: int| 0 <= p < k && #[trigger] out[p] == j;
        assert(r[p] == ms[j].0);
    }
    assert forall|i: int| 0 <= i < ms.len() && !r.contains(#[trigger] ms[i].0) implies exists|j: int|
        #[trigger] dep_on(ms, i, j) && !r.contains(ms[j].0) by {
        if out.contains(i) {
            let k = choose|k: int| 0 <= k < out.len() && out[k] == i;
            assert(r[k] == ms[i].0);
        }
        let j = choose|j: int| #[trigger] dep_on(ms, i, j) && !out.contains(j);
        if r.contains(ms[j].0) {
            let k = choose|k: int| 0 <= k < r.len() && r[k] == ms[j].0;
            lemma_keys_distinct(ms, j, out[k]);
        }
    }
}

/// The build order of the modules: Kahn's order (see `kahn`), which is a
/// valid build order (see `valid_build_order`).
fn topo_sort(modules: &StrMap<ModuleTopology>) -> (r: Vec<String>)
    ensures
        valid_build_order(modules.view(), r.deep_view()),
        r.deep_view() == paths_at(modules.view(), kahn(modules.view())),
{
    modules.check_sorted();
    let out = kahn_order(modules);
    let ghost ov = out@.map_values(|x: usize| x as int);
    let mut r: Vec<String> = Vec::new();
    let mut k: usize = 0;
    while k < out.len()
        invariant
            ov == out@.map_values(|x: usize| x as int),
            index_order(modules.view(), ov),
            k <= out@.len(),
            r.deep_view() == paths_at(modules.view(), ov).take(k as int),
        decreases out.len() - k,
    {
        assert(0 <= ov[k as int] < modules.view().len());
        let p = owned(modules.key_at(out[k]).as_str());
        let ghost before = r.deep_view();
        let ghost pv = p@;
        r.push(p);
        assert(r.deep_view() =~= before.push(pv));
        assert(pv == paths_at(modules.view(), ov)[k as int]);
        assert(r.deep_view() =~= paths_at(modules.view(), ov).take(k + 1));
        k += 1;
    }
    assert(paths_at(modules.view(), ov).take(ov.len() as int) =~= paths_at(modules.view(), ov));
    proof {
        lemma_paths_order(modules.view(), ov);
    }
    r
}

// ---------------------------------------------------------------------------
// Building the topology
// ---------------------------------------------------------------------------

/// The modules among the first `n` that the build order `order` leaves
/// out, each reported as a cycle of its own, in path order: the modules
/// that reach an import cycle.
pub open spec fn left_out(ms: Seq<(Seq<char>, ModuleTopology)>, order: Seq<Seq<char>>, n: int) -> Seq<Seq<Seq<char>>>
    decreases n,
{
    if n <= 0 {
        seq![]
    } else {
        left_out(ms, order, n - 1) + if !order.contains(ms[n - 1].0) {
            seq![seq![ms[n - 1].0]]
        } else {
            seq![]
        }
    }
}

/// The module at position `i` stands for the component there.
pub open spec fn module_of(m: (Seq<char>, ModuleTopology), cs: Seq<(Seq<char>, Component)>, i: int, language: Language) -> bool {
    &&& m.0 == cs[i].0
    &&& m.1.file_path@ == cs[i].0
    &&& m.1.depends_on.view().to_set() == declared_deps(cs[i].1)
    &&& m.1.depended_by.view().to_set() == importers(cs, i)
    &&& meta_is(m.1.meta, cs[i].0, cs[i].1, language, keys_of(cs))
}

fn holds_path(order: &Vec<String>, p: &str) -> (b: bool)
    ensures
        b == order.deep_view().contains(p@),
{
    let mut k: usize = 0;
    while k < order.len()
        invariant
            k <= order.len(),
            forall|j: int| 0 <= j < k ==> order.deep_view()[j] != p@,
        decreases order.len() - k,
    {
        assert(order.deep_view()[k as int] == order@[k as int]@);
        if str_eq(order[k].as_str(), p) {
            return true;
        }
        k += 1;
    }
    false
}

fn detect_cycles(modules: &StrMap<ModuleTopology>, order: &Vec<String>) -> (r: Vec<Vec<String>>)
    ensures
        r.deep_view() == left_out(modules.view(), order.deep_view(), modules.view().len() as int),
{
    let ghost ms = modules.view();
    let mut r: Vec<Vec<String>> = Vec::new();
    let mut i: usize = 0;
    while i < modules.len()
        invariant
            ms == modules.view(),
            i <= ms.len(),
            r.deep_view() == left_out(ms, order.deep_view(), i as int),
        decreases ms.len() - i,
    {
        let ghost before = r.deep_view();
        if !holds_path(order, modules.key_at(i).as_str()) {
            let p = owned(modules.key_at(i).as_str());
            let ghost pv = p@;
            let mut c: Vec<String> = Vec::new();
            c.push(p);
            assert(c.deep_view() =~= seq![pv]);
            r.push(c);
            assert(r.deep_view() =~= before.push(seq![pv]));
        }
        assert(r.deep_view() =~= left_out(ms, order.deep_view(), i + 1));
        i += 1;
    }
    r
}

impl ProjectTopology {
    /// The topology of a project's components: one module per component,
    /// depending on what the component imports and the includes it is
    /// allowed, depended on by the components that depend on it, of the kind its path and the language give; the
    /// build order (Kahn's order, leaf-first: each module after the modules
    /// it depends on, and only the modules that reach no cycle); and, as the
    /// cycles, the modules the build order leaves out, one per entry.
    pub fn from_components(components: &StrMap<Component>, language: Language) -> (t: ProjectTopology)
        ensures
            t.modules.view().len() == components.view().len(),
            forall|i: int| 0 <= i < components.view().len() ==> module_of(
                #[trigger] t.modules.view()[i],
                components.view(),
                i,
                language,
            ),
            valid_build_order(t.modules.view(), t.build_order.deep_view()),
            t.build_order.deep_view() == paths_at(t.modules.view(), kahn(t.modules.view())),
            t.cycles.deep_view() == left_out(t.modules.view(), t.build_order.deep_view(), t.modules.view().len() as int),
    {
        let ghost cs = components.view();
        components.check_sorted();
        let mut modules: StrMap<ModuleTopology> = StrMap::new();
        let mut i: usize = 0;
        while i < components.len()
            invariant
                cs == components.view(),
                sorted_keys(cs),
                i <= cs.len(),
                modules.view().len() == i,
                forall|k: int| 0 <= k < i ==> module_of(#[trigger] modules.view()[k], cs, k, language),
            decreases cs.len() - i,
        {
            let key = components.key_at(i);
            let c = components.value_at(i);
            let meta = meta_for(key.as_str(), c, language, components);
            let m = ModuleTopology {
                file_path: owned(key.as_str()),
                depends_on: deps_of(c),
                depended_by: importers_of(components, i),
                meta,
            };
            let ghost before = modules.view();
            proof {
                assert forall|j: int| 0 <= j < before.len() implies lex_lt(#[trigger] before[j].0, key@) by {
                    assert(module_of(before[j], cs, j, language));
                }
            }
            modules.push_back(owned(key.as_str()), m);
            proof {
                assert forall|k: int| 0 <= k < i + 1 implies module_of(#[trigger] modules.view()[k], cs, k, language) by {
                    if k < i {
                        assert(modules.view()[k] == before[k]);
                    }
                }
            }
            i += 1;
        }
        let build_order = topo_sort(&modules);
        let cycles = detect_cycles(&modules, &build_order);
        ProjectTopology { modules, build_order, cycles }
    }
}

// ---------------------------------------------------------------------------
// Checks
// ---------------------------------------------------------------------------

/// The paths of the crate entries among the first `n` modules, in order.
pub open spec fn entry_paths(ms: Seq<(Seq<char>, ModuleTopology)>, n: int) -> Seq<Seq<char>>
    decreases n,
{
    if n <= 0 {
        seq![]
    } else {
        entry_paths(ms, n - 1) + if ms[n - 1].1.meta.is_crate_entry {
            seq![ms[n - 1].1.file_path@]
        } else {
            seq![]
        }
    }
}

/// The errors of a Rust topology: no crate entry, or more than one; and
/// import cycles.
pub open spec fn rust_errors(ms: Seq<(Seq<char>, ModuleTopology)>, cycles: Seq<Seq<Seq<char>>>) -> Seq<Seq<char>> {
    let es = entry_paths(ms, ms.len() as int);
    (if es.len() == 0 {
        seq!["Rust topology: no crate entry point (main.rs or lib.rs) found"@]
    } else if es.len() > 1 {
        seq!["Rust topology: multiple crate entries detected: "@ + debug_strings(es)]
    } else {
        seq![]
    }) + if cycles.len() > 0 {
        seq!["Rust topology: circular module dependencies detected: "@ + debug_string_lists(cycles)]
    } else {
        seq![]
    }
}

/// The orphan headers among the first `n` modules: headers with no owning
/// translation unit that no module imports.
pub open spec fn orphan_errors(ms: Seq<(Seq<char>, ModuleTopology)>, n: int) -> Seq<Seq<char>>
    decreases n,
{
    if n <= 0 {
        seq![]
    } else {
        let m = ms[n - 1].1;
        orphan_errors(ms, n - 1) + if m.meta.is_header && m.meta.owner_translation_unit is None
            && m.depended_by.view().len() == 0 {
            seq!["C topology: orphan header with no owner or consumer: "@ + m.file_path@]
        } else {
            seq![]
        }
    }
}

/// The errors of a C topology: header cycles, then orphan headers.
pub open spec fn c_errors(ms: Seq<(Seq<char>, ModuleTopology)>, cycles: Seq<Seq<Seq<char>>>) -> Seq<Seq<char>> {
    (if cycles.len() > 0 {
        seq!["C topology: circular header dependencies detected: "@ + debug_string_lists(cycles)]
    } else {
        seq![]
    }) + orphan_errors(ms, ms.len() as int)
}

impl ProjectTopology {
    /// A Rust crate has exactly one entry and no import cycle.
    pub fn validate_rust(&self) -> (errors: Vec<String>)
        ensures
            errors.deep_view() == rust_errors(self.modules.view(), self.cycles.deep_view()),
    {
        let ghost ms = self.modules.view();
        let mut entries: Vec<String> = Vec::new();
        let mut i: usize = 0;
        while i < self.modules.len()
            invariant
                ms == self.modules.view(),
                i <= ms.len(),
                entries.deep_view() == entry_paths(ms, i as int),
            decreases ms.len() - i,
        {
            let m = self.modules.value_at(i);
            if m.meta.is_crate_entry {
                crate::text::push_piece_string(&mut entries, owned(m.file_path.as_str()));
            }
            assert(entries.deep_view() =~= entry_paths(ms, i + 1));
            i += 1;
        }
        let mut errors: Vec<String> = Vec::new();
        if entries.len() == 0 {
            crate::text::push_piece_string(&mut errors, owned("Rust topology: no crate entry point (main.rs or lib.rs) found"));
        } else if entries.len() > 1 {
            crate::text::push_piece_string(&mut errors, concat_strs("Rust topology: multiple crate entries detected: ", debug_string_list(&entries).as_str()));
        }
        let ghost head = errors.deep_view();
        if self.cycles.len() > 0 {
            crate::text::push_piece_string(&mut errors, concat_strs("Rust topology: circular module dependencies detected: ", debug_nested_list(&self.cycles).as_str()));
        }
        assert(errors.deep_view() =~= rust_errors(ms, self.cycles.deep_view()));
        errors
    }

    /// C translation units form no header cycle, and every header has an
    /// owner or a consumer.
    pub fn validate_c(&self) -> (errors: Vec<String>)
        ensures
            errors.deep_view() == c_errors(self.modules.view(), self.cycles.deep_view()),
    {
        let ghost ms = self.modules.view();
        let mut errors: Vec<String> = Vec::new();
        if self.cycles.len() > 0 {
            crate::text::push_piece_string(&mut errors, concat_strs("C topology: circular header dependencies detected: ", debug_nested_list(&self.cycles).as_str()));
        }
        let ghost head = errors.deep_view();
        assert(head + orphan_errors(ms, 0) =~= head);
        let mut i: usize = 0;
        while i < self.modules.len()
            invariant
                ms == self.modules.view(),
                i <= ms.len(),
                errors.deep_view() == head + orphan_errors(ms, i as int),
            decreases ms.len() - i,
        {
            let m = self.modules.value_at(i);
            let ghost before = errors.deep_view();
            if m.meta.is_header && m.meta.owner_translation_unit.is_none() && m.depended_by.len() == 0 {
                crate::text::push_piece_string(&mut errors, concat_strs("C topology: orphan header with no owner or consumer: ", m.file_path.as_str()));
            }
            assert(errors.deep_view() =~= head + orphan_errors(ms, i + 1));
            i += 1;
        }
        errors
    }
}

} // verus!
