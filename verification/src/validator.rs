//! Validation of a project IR: its structure, function names, the
//! references of a task graph, the supported backends and the rules of
//! each target language.
use vstd::prelude::*;
use crate::linker::{link_dependencies, DependencyGraph};
use crate::ordmap::{lookup, str_eq};
use crate::schema::{Component, Function, Language, ProjectIR};
use crate::text::{
    cat3, chars_of, concat_strs, ends_with, lowercase, owned, starts_with, str_ends_with,
    str_starts_with, string_of, to_lower, contains, str_contains, debug_strings,
};

verus! {

/// The class of a validation finding.
#[derive(Clone, Copy, Debug, PartialEq, Eq, Structural)]
pub enum ValidationKind {
    Syntax,
    Semantic,
    RuntimeContract,
    OrphanDependency,
    CircularDispatch,
    MissingArtifact,
    InvalidBackend,
}

impl ValidationKind {
    /// The variant's name, as `Debug` prints it.
    pub open spec fn spec_name(self) -> Seq<char> {
        match self {
            ValidationKind::Syntax => "Syntax"@,
            ValidationKind::Semantic => "Semantic"@,
            ValidationKind::RuntimeContract => "RuntimeContract"@,
            ValidationKind::OrphanDependency => "OrphanDependency"@,
            ValidationKind::CircularDispatch => "CircularDispatch"@,
            ValidationKind::MissingArtifact => "MissingArtifact"@,
            ValidationKind::InvalidBackend => "InvalidBackend"@,
        }
    }

    pub fn name(&self) -> (s: &'static str)
        ensures
            s@ == self.spec_name(),
    {
        match self {
            ValidationKind::Syntax => "Syntax",
            ValidationKind::Semantic => "Semantic",
            ValidationKind::RuntimeContract => "RuntimeContract",
            ValidationKind::OrphanDependency => "OrphanDependency",
            ValidationKind::CircularDispatch => "CircularDispatch",
            ValidationKind::MissingArtifact => "MissingArtifact",
            ValidationKind::InvalidBackend => "InvalidBackend",
        }
    }
}

/// A finding: its class, what it is about, and why.
#[derive(Clone, Debug)]
pub struct ValidationError {
    pub kind: ValidationKind,
    pub target: String,
    pub message: String,
}

/// A finding as plain values.
pub open spec fn ev(e: ValidationError) -> (ValidationKind, Seq<char>, Seq<char>) {
    (e.kind, e.target@, e.message@)
}

/// Findings as plain values.
pub open spec fn evs(v: Seq<ValidationError>) -> Seq<(ValidationKind, Seq<char>, Seq<char>)> {
    v.map_values(|e: ValidationError| ev(e))
}

impl ValidationError {
    /// `[Kind] target: message`.
    pub fn to_string(&self) -> (s: String)
        ensures
            s@ == "["@ + self.kind.spec_name() + "] "@ + self.target@ + ": "@ + self.message@,
    {
        let mut v = chars_of("[");
        crate::text::push_str(&mut v, self.kind.name());
        crate::text::push_str(&mut v, "] ");
        crate::text::push_str(&mut v, self.target.as_str());
        crate::text::push_str(&mut v, ": ");
        crate::text::push_str(&mut v, self.message.as_str());
        string_of(&v)
    }
}

fn push_err(errs: &mut Vec<ValidationError>, kind: ValidationKind, target: String, message: String)
    ensures
        evs(final(errs)@) == evs(old(errs)@).push((kind, target@, message@)),
{
    let ghost before = errs@;
    let e = ValidationError { kind, target, message };
    errs.push(e);
    assert(evs(errs@) =~= evs(before).push(ev(e)));
}

fn append_errs(errs: &mut Vec<ValidationError>, more: Vec<ValidationError>)
    ensures
        evs(final(errs)@) == evs(old(errs)@) + evs(more@),
{
    let ghost before = errs@;
    let ghost m0 = more@;
    let mut more = more;
    errs.append(&mut more);
    assert(errs@ =~= before + m0);
    assert(evs(errs@) =~= evs(before) + evs(m0));
}

/// The findings for each component, one component after the other.
pub open spec fn per_comp(
    cs: Seq<(Seq<char>, Component)>,
    f: spec_fn(Seq<char>, Component) -> Seq<(ValidationKind, Seq<char>, Seq<char>)>,
) -> Seq<(ValidationKind, Seq<char>, Seq<char>)>
    decreases cs.len(),
{
    if cs.len() == 0 {
        seq![]
    } else {
        per_comp(cs.drop_last(), f) + f(cs.last().0, cs.last().1)
    }
}

proof fn lemma_per_comp_step(
    cs: Seq<(Seq<char>, Component)>,
    f: spec_fn(Seq<char>, Component) -> Seq<(ValidationKind, Seq<char>, Seq<char>)>,
    i: int,
)
    requires
        0 <= i < cs.len(),
    ensures
        per_comp(cs.take(i + 1), f) == per_comp(cs.take(i), f) + f(cs[i].0, cs[i].1),
{
    assert(cs.take(i + 1).drop_last() =~= cs.take(i));
}

/// One finding, or none.
pub open spec fn one_if(
    c: bool,
    kind: ValidationKind,
    target: Seq<char>,
    message: Seq<char>,
) -> Seq<(ValidationKind, Seq<char>, Seq<char>)> {
    if c {
        seq![(kind, target, message)]
    } else {
        seq![]
    }
}

/// Empty keys and empty file paths.
pub open spec fn structure_of(key: Seq<char>, c: Component) -> Seq<(ValidationKind, Seq<char>, Seq<char>)> {
    one_if(key.len() == 0, ValidationKind::Syntax, key, "Empty component key"@) + one_if(
        c.file_path@.len() == 0,
        ValidationKind::Syntax,
        c.name@,
        "Empty file_path"@,
    )
}

/// A function name that is empty or starts with `_`.
pub open spec fn bad_fn_name(n: Seq<char>) -> bool {
    n.len() == 0 || starts_with(n, "_"@)
}

/// The findings for the functions `fs` of component `key`.
pub open spec fn fn_names_of(key: Seq<char>, fs: Seq<(Seq<char>, Function)>) -> Seq<(ValidationKind, Seq<char>, Seq<char>)>
    decreases fs.len(),
{
    if fs.len() == 0 {
        seq![]
    } else {
        fn_names_of(key, fs.drop_last()) + one_if(
            bad_fn_name(fs.last().0),
            ValidationKind::Semantic,
            key + "."@ + fs.last().0,
            "Invalid function name"@,
        )
    }
}

pub open spec fn semantic_of(key: Seq<char>, c: Component) -> Seq<(ValidationKind, Seq<char>, Seq<char>)> {
    fn_names_of(key, c.functions.view())
}

fn validate_structure(ir: &ProjectIR) -> (errs: Vec<ValidationError>)
    ensures
        evs(errs@) == per_comp(ir.components.view(), |k: Seq<char>, c: Component| structure_of(k, c)),
{
    let ghost cs = ir.components.view();
    let mut errs: Vec<ValidationError> = Vec::new();
    let n = ir.components.len();
    let mut i: usize = 0;
    assert(evs(errs@) =~= per_comp(cs.take(0), |k: Seq<char>, c: Component| structure_of(k, c)));
    while i < n
        invariant
            cs == ir.components.view(),
            n == cs.len(),
            i <= n,
            evs(errs@) == per_comp(cs.take(i as int), |k: Seq<char>, c: Component| structure_of(k, c)),
        decreases n - i,
    {
        let key = ir.components.key_at(i);
        let comp = ir.components.value_at(i);
        let ghost e0 = evs(errs@);
        if key.as_str().is_empty() {
            push_err(&mut errs, ValidationKind::Syntax, key.clone(), owned("Empty component key"));
        }
        let ghost e1 = evs(errs@);
        if comp.file_path.as_str().is_empty() {
            push_err(&mut errs, ValidationKind::Syntax, comp.name.clone(), owned("Empty file_path"));
        }
        proof {
            lemma_per_comp_step(cs, |k: Seq<char>, c: Component| structure_of(k, c), i as int);
            assert(e1 =~= e0 + one_if(key@.len() == 0, ValidationKind::Syntax, key@, "Empty component key"@));
            assert(evs(errs@) =~= e0 + structure_of(key@, *comp));
        }
        i += 1;
    }
    assert(cs.take(n as int) =~= cs);
    errs
}

fn validate_semantic(ir: &ProjectIR) -> (errs: Vec<ValidationError>)
    ensures
        evs(errs@) == per_comp(ir.components.view(), |k: Seq<char>, c: Component| semantic_of(k, c)),
{
    let ghost cs = ir.components.view();
    let mut errs: Vec<ValidationError> = Vec::new();
    let n = ir.components.len();
    let mut i: usize = 0;
    assert(evs(errs@) =~= per_comp(cs.take(0), |k: Seq<char>, c: Component| semantic_of(k, c)));
    while i < n
        invariant
            cs == ir.components.view(),
            n == cs.len(),
            i <= n,
            evs(errs@) == per_comp(cs.take(i as int), |k: Seq<char>, c: Component| semantic_of(k, c)),
        decreases n - i,
    {
        let key = ir.components.key_at(i);
        let comp = ir.components.value_at(i);
        let ghost e0 = evs(errs@);
        let ghost fs = comp.functions.view();
        let m = comp.functions.len();
        let mut j: usize = 0;
        assert(fs.take(0) =~= Seq::<(Seq<char>, Function)>::empty());
        assert(e0 + fn_names_of(key@, fs.take(0)) =~= e0);
        while j < m
            invariant
                fs == comp.functions.view(),
                m == fs.len(),
                j <= m,
                evs(errs@) == e0 + fn_names_of(key@, fs.take(j as int)),
            decreases m - j,
        {
            let fname = comp.functions.key_at(j);
            let ghost e1 = evs(errs@);
            if fname.as_str().is_empty() || str_starts_with(fname.as_str(), "_") {
                push_err(&mut errs, ValidationKind::Semantic, cat3(key.as_str(), ".", fname.as_str()), owned("Invalid function name"));
            }
            proof {
                assert(fs.take(j + 1).drop_last() =~= fs.take(j as int));
                assert(evs(errs@) =~= e0 + fn_names_of(key@, fs.take(j + 1)));
            }
            j += 1;
        }
        proof {
            assert(fs.take(m as int) =~= fs);
            lemma_per_comp_step(cs, |k: Seq<char>, c: Component| semantic_of(k, c), i as int);
        }
        i += 1;
    }
    assert(cs.take(n as int) =~= cs);
    errs
}

/// A source file and its text, as plain values.
pub open spec fn fv(files: Seq<(String, String)>) -> Seq<(Seq<char>, Seq<char>)> {
    files.map_values(|f: (String, String)| (f.0@, f.1@))
}

/// Checks a project against the rules of one target language.
pub trait LanguageValidator {
    /// The findings on components `cs`.
    spec fn errors_for(&self, cs: Seq<(Seq<char>, Component)>) -> Seq<(ValidationKind, Seq<char>, Seq<char>)>;

    /// Some file is an entry point of the language.
    spec fn entry_in(&self, files: Seq<(Seq<char>, Seq<char>)>) -> bool;

    fn validate(&self, ir: &ProjectIR) -> (r: Vec<ValidationError>)
        ensures
            evs(r@) == self.errors_for(ir.components.view()),
    ;

    fn check_entry_point(&self, files: &[(String, String)]) -> (b: bool)
        ensures
            b == self.entry_in(fv(files@)),
    ;
}

/// Rules for C and C++ projects.
pub struct CValidator;

/// Rules for Python projects.
pub struct PythonValidator;

/// Rules for Rust projects.
pub struct RustValidator;

/// Rules for Lua projects.
pub struct LuaValidator;

/// One of the language validators.
pub enum AnyValidator {
    C(CValidator),
    Python(PythonValidator),
    Rust(RustValidator),
    Lua(LuaValidator),
}

/// The findings of the C rules on one component: a source file (not a
/// header) without functions.
pub open spec fn c_of(key: Seq<char>, c: Component) -> Seq<(ValidationKind, Seq<char>, Seq<char>)> {
    let p = lowercase(c.file_path@);
    let is_header = ends_with(p, ".h"@) || ends_with(p, ".hpp"@);
    one_if(
        c.functions.view().len() == 0 && !is_header,
        ValidationKind::Semantic,
        key,
        "C source file '"@ + c.file_path@ + "' must have at least one function definition."@,
    )
}

/// The findings of the Python rules on one component.
pub open spec fn python_of(key: Seq<char>, c: Component) -> Seq<(ValidationKind, Seq<char>, Seq<char>)> {
    one_if(
        c.functions.view().len() == 0 && !ends_with(c.file_path@, "__init__.py"@),
        ValidationKind::Semantic,
        key,
        "Python file '"@ + c.file_path@ + "' has no functions and is not a package init."@,
    )
}

/// The findings of the Rust rules on one component.
pub open spec fn rust_of(key: Seq<char>, c: Component) -> Seq<(ValidationKind, Seq<char>, Seq<char>)> {
    one_if(
        c.functions.view().len() == 0 && !ends_with(c.file_path@, "lib.rs"@) && !ends_with(
            c.file_path@,
            "mod.rs"@,
        ) && !ends_with(c.file_path@, "main.rs"@),
        ValidationKind::Semantic,
        key,
        "Rust file '"@ + c.file_path@ + "' has no functions and is not a module root."@,
    )
}

/// A path of another language's sources or build files.
pub open spec fn non_lua(p: Seq<char>) -> bool {
    ends_with(p, ".c"@) || ends_with(p, ".h"@) || ends_with(p, ".rs"@) || ends_with(p, ".py"@)
        || p == "cmakelists.txt"@ || p == "cargo.toml"@
}

/// The findings of the Lua rules on one component.
pub open spec fn lua_of(key: Seq<char>, c: Component) -> Seq<(ValidationKind, Seq<char>, Seq<char>)> {
    let p = lowercase(c.file_path@);
    one_if(
        non_lua(p),
        ValidationKind::Semantic,
        key,
        "[CONSTITUTIONAL_VIOLATION] Non-Lua file '"@ + c.file_path@
            + "' detected in Lua project. Lua projects must use Lua files (.lua) only."@,
    ) + one_if(
        ends_with(p, ".lua"@) && c.functions.view().len() == 0,
        ValidationKind::Semantic,
        key,
        "Lua file '"@ + c.file_path@ + "' has no functions."@,
    )
}

impl AnyValidator {
    /// The findings of this validator on one component.
    pub open spec fn comp_errors(self, key: Seq<char>, c: Component) -> Seq<(ValidationKind, Seq<char>, Seq<char>)> {
        match self {
            AnyValidator::C(_) => c_of(key, c),
            AnyValidator::Python(_) => python_of(key, c),
            AnyValidator::Rust(_) => rust_of(key, c),
            AnyValidator::Lua(_) => lua_of(key, c),
        }
    }

    /// Whether one file is an entry point for this validator's language.
    pub open spec fn is_entry(self, name: Seq<char>, code: Seq<char>) -> bool {
        let n = lowercase(name);
        match self {
            AnyValidator::C(_) => (ends_with(n, "main.c"@) || ends_with(n, "main.cpp"@) || contains(
                n,
                "main"@,
            )) && (contains(code, "int main"@) || contains(code, "void main"@)),
            AnyValidator::Python(_) => ends_with(n, "main.py"@) || ends_with(n, "app.py"@) || contains(
                code,
                "if __name__ == '__main__'"@,
            ) || contains(code, "if __name__ == \"__main__\""@) || contains(code, "def main():"@),
            AnyValidator::Rust(_) => ends_with(n, "main.rs"@) || contains(code, "fn main()"@),
            AnyValidator::Lua(_) => ends_with(n, "main.lua"@) || ends_with(n, "init.lua"@) || contains(
                code,
                "function main("@,
            ) || contains(code, "return {"@),
        }
    }

    pub open spec fn entries(self, files: Seq<(Seq<char>, Seq<char>)>) -> bool {
        exists|i: int| 0 <= i < files.len() && #[trigger] self.is_entry(files[i].0, files[i].1)
    }

    fn comp_errors_exec(&self, key: &String, c: &Component) -> (r: Vec<ValidationError>)
        ensures
            evs(r@) == self.comp_errors(key@, *c),
    {
        let mut r: Vec<ValidationError> = Vec::new();
        let no_fns = c.functions.is_empty();
        match self {
            AnyValidator::C(_) => {
                let p = to_lower(c.file_path.as_str());
                let is_header = str_ends_with(p.as_str(), ".h") || str_ends_with(p.as_str(), ".hpp");
                if no_fns && !is_header {
                    push_err(&mut r, ValidationKind::Semantic, key.clone(), cat3("C source file '", c.file_path.as_str(), "' must have at least one function definition."));
                }
            },
            AnyValidator::Python(_) => {
                if no_fns && !str_ends_with(c.file_path.as_str(), "__init__.py") {
                    push_err(&mut r, ValidationKind::Semantic, key.clone(), cat3("Python file '", c.file_path.as_str(), "' has no functions and is not a package init."));
                }
            },
            AnyValidator::Rust(_) => {
                if no_fns && !str_ends_with(c.file_path.as_str(), "lib.rs") && !str_ends_with(c.file_path.as_str(), "mod.rs")
                    && !str_ends_with(c.file_path.as_str(), "main.rs") {
                    push_err(&mut r, ValidationKind::Semantic, key.clone(), cat3("Rust file '", c.file_path.as_str(), "' has no functions and is not a module root."));
                }
            },
            AnyValidator::Lua(_) => {
                let p = to_lower(c.file_path.as_str());
                let ps = p.as_str();
                if str_ends_with(ps, ".c") || str_ends_with(ps, ".h") || str_ends_with(ps, ".rs") || str_ends_with(ps, ".py")
                    || str_eq(ps, "cmakelists.txt") || str_eq(ps, "cargo.toml") {
                    push_err(&mut r, ValidationKind::Semantic, key.clone(), cat3("[CONSTITUTIONAL_VIOLATION] Non-Lua file '", c.file_path.as_str(), "' detected in Lua project. Lua projects must use Lua files (.lua) only."));
                }
                if str_ends_with(ps, ".lua") && no_fns {
                    push_err(&mut r, ValidationKind::Semantic, key.clone(), cat3("Lua file '", c.file_path.as_str(), "' has no functions."));
                }
            },
        }
        proof {
            assert(evs(r@) =~= self.comp_errors(key@, *c));
        }
        r
    }

    fn is_entry_exec(&self, name: &String, code: &String) -> (b: bool)
        ensures
            b == self.is_entry(name@, code@),
    {
        let n = to_lower(name.as_str());
        let ns = n.as_str();
        let cs = code.as_str();
        match self {
            AnyValidator::C(_) => (str_ends_with(ns, "main.c") || str_ends_with(ns, "main.cpp") || str_contains(ns, "main"))
                && (str_contains(cs, "int main") || str_contains(cs, "void main")),
            AnyValidator::Python(_) => str_ends_with(ns, "main.py") || str_ends_with(ns, "app.py") || str_contains(cs, "if __name__ == '__main__'")
                || str_contains(cs, "if __name__ == \"__main__\"") || str_contains(cs, "def main():"),
            AnyValidator::Rust(_) => str_ends_with(ns, "main.rs") || str_contains(cs, "fn main()"),
            AnyValidator::Lua(_) => str_ends_with(ns, "main.lua") || str_ends_with(ns, "init.lua") || str_contains(cs, "function main(")
                || str_contains(cs, "return {"),
        }
    }

    fn run_validate(&self, ir: &ProjectIR) -> (errs: Vec<ValidationError>)
        ensures
            evs(errs@) == per_comp(ir.components.view(), |k: Seq<char>, c: Component| self.comp_errors(k, c)),
    {
        let ghost cs = ir.components.view();
        let mut errs: Vec<ValidationError> = Vec::new();
        let n = ir.components.len();
        let mut i: usize = 0;
        assert(evs(errs@) =~= per_comp(cs.take(0), |k: Seq<char>, c: Component| self.comp_errors(k, c)));
        while i < n
            invariant
                cs == ir.components.view(),
                n == cs.len(),
                i <= n,
                evs(errs@) == per_comp(cs.take(i as int), |k: Seq<char>, c: Component| self.comp_errors(k, c)),
            decreases n - i,
        {
            let key = ir.components.key_at(i);
            let comp = ir.components.value_at(i);
            let more = self.comp_errors_exec(key, comp);
            append_errs(&mut errs, more);
            proof {
                lemma_per_comp_step(cs, |k: Seq<char>, c: Component| self.comp_errors(k, c), i as int);
            }
            i += 1;
        }
        assert(cs.take(n as int) =~= cs);
        errs
    }

    fn run_entry(&self, files: &[(String, String)]) -> (b: bool)
        ensures
            b == self.entries(fv(files@)),
    {
        let mut i: usize = 0;
        while i < files.len()
            invariant
                i <= files@.len(),
                forall|j: int| 0 <= j < i ==> !self.is_entry(#[trigger] fv(files@)[j].0, fv(files@)[j].1),
            decreases files.len() - i,
        {
            if self.is_entry_exec(&files[i].0, &files[i].1) {
                assert(self.is_entry(fv(files@)[i as int].0, fv(files@)[i as int].1));
                return true;
            }
            i += 1;
        }
        false
    }
}

impl LanguageValidator for AnyValidator {
    open spec fn errors_for(&self, cs: Seq<(Seq<char>, Component)>) -> Seq<(ValidationKind, Seq<char>, Seq<char>)> {
        per_comp(cs, |k: Seq<char>, c: Component| self.comp_errors(k, c))
    }

    open spec fn entry_in(&self, files: Seq<(Seq<char>, Seq<char>)>) -> bool {
        self.entries(files)
    }

    fn validate(&self, ir: &ProjectIR) -> (r: Vec<ValidationError>) {
        self.run_validate(ir)
    }

    fn check_entry_point(&self, files: &[(String, String)]) -> (b: bool) {
        self.run_entry(files)
    }
}

impl LanguageValidator for CValidator {
    open spec fn errors_for(&self, cs: Seq<(Seq<char>, Component)>) -> Seq<(ValidationKind, Seq<char>, Seq<char>)> {
        per_comp(cs, |k: Seq<char>, c: Component| c_of(k, c))
    }

    open spec fn entry_in(&self, files: Seq<(Seq<char>, Seq<char>)>) -> bool {
        AnyValidator::C(CValidator).entries(files)
    }

    fn validate(&self, ir: &ProjectIR) -> (r: Vec<ValidationError>) {
        let r = AnyValidator::C(CValidator).run_validate(ir);
        assert((|k: Seq<char>, c: Component| AnyValidator::C(CValidator).comp_errors(k, c)) =~= (|k: Seq<char>, c: Component| c_of(k, c)));
        r
    }

    fn check_entry_point(&self, files: &[(String, String)]) -> (b: bool) {
        AnyValidator::C(CValidator).run_entry(files)
    }
}

impl LanguageValidator for PythonValidator {
    open spec fn errors_for(&self, cs: Seq<(Seq<char>, Component)>) -> Seq<(ValidationKind, Seq<char>, Seq<char>)> {
        per_comp(cs, |k: Seq<char>, c: Component| python_of(k, c))
    }

    open spec fn entry_in(&self, files: Seq<(Seq<char>, Seq<char>)>) -> bool {
        AnyValidator::Python(PythonValidator).entries(files)
    }

    fn validate(&self, ir: &ProjectIR) -> (r: Vec<ValidationError>) {
        let r = AnyValidator::Python(PythonValidator).run_validate(ir);
        assert((|k: Seq<char>, c: Component| AnyValidator::Python(PythonValidator).comp_errors(k, c)) =~= (|k: Seq<char>, c: Component| python_of(k, c)));
        r
    }

    fn check_entry_point(&self, files: &[(String, String)]) -> (b: bool) {
        AnyValidator::Python(PythonValidator).run_entry(files)
    }
}

impl LanguageValidator for RustValidator {
    open spec fn errors_for(&self, cs: Seq<(Seq<char>, Component)>) -> Seq<(ValidationKind, Seq<char>, Seq<char>)> {
        per_comp(cs, |k: Seq<char>, c: Component| rust_of(k, c))
    }

    open spec fn entry_in(&self, files: Seq<(Seq<char>, Seq<char>)>) -> bool {
        AnyValidator::Rust(RustValidator).entries(files)
    }

    fn validate(&self, ir: &ProjectIR) -> (r: Vec<ValidationError>) {
        let r = AnyValidator::Rust(RustValidator).run_validate(ir);
        assert((|k: Seq<char>, c: Component| AnyValidator::Rust(RustValidator).comp_errors(k, c)) =~= (|k: Seq<char>, c: Component| rust_of(k, c)));
        r
    }

    fn check_entry_point(&self, files: &[(String, String)]) -> (b: bool) {
        AnyValidator::Rust(RustValidator).run_entry(files)
    }
}

impl LanguageValidator for LuaValidator {
    open spec fn errors_for(&self, cs: Seq<(Seq<char>, Component)>) -> Seq<(ValidationKind, Seq<char>, Seq<char>)> {
        per_comp(cs, |k: Seq<char>, c: Component| lua_of(k, c))
    }

    open spec fn entry_in(&self, files: Seq<(Seq<char>, Seq<char>)>) -> bool {
        AnyValidator::Lua(LuaValidator).entries(files)
    }

    fn validate(&self, ir: &ProjectIR) -> (r: Vec<ValidationError>) {
        let r = AnyValidator::Lua(LuaValidator).run_validate(ir);
        assert((|k: Seq<char>, c: Component| AnyValidator::Lua(LuaValidator).comp_errors(k, c)) =~= (|k: Seq<char>, c: Component| lua_of(k, c)));
        r
    }

    fn check_entry_point(&self, files: &[(String, String)]) -> (b: bool) {
        AnyValidator::Lua(LuaValidator).run_entry(files)
    }
}

/// The validator a language name selects, by its lowercase form.
pub open spec fn validator_for(lang: Seq<char>) -> Option<AnyValidator> {
    if lang == "c"@ || lang == "cpp"@ {
        Some(AnyValidator::C(CValidator))
    } else if lang == "python"@ {
        Some(AnyValidator::Python(PythonValidator))
    } else if lang == "rust"@ {
        Some(AnyValidator::Rust(RustValidator))
    } else if lang == "lua"@ {
        Some(AnyValidator::Lua(LuaValidator))
    } else {
        None
    }
}

/// The validator for a language name, compared in lowercase.
pub fn get_validator(language: &str) -> (r: Option<AnyValidator>)
    ensures
        r == validator_for(lowercase(language@)),
        crate::text::all_ascii(language@) ==> r == validator_for(crate::text::ascii_lowercase(language@)),
{
    let lo = to_lower(language);
    let l = lo.as_str();
    if str_eq(l, "c") || str_eq(l, "cpp") {
        Some(AnyValidator::C(CValidator))
    } else if str_eq(l, "python") {
        Some(AnyValidator::Python(PythonValidator))
    } else if str_eq(l, "rust") {
        Some(AnyValidator::Rust(RustValidator))
    } else if str_eq(l, "lua") {
        Some(AnyValidator::Lua(LuaValidator))
    } else {
        None
    }
}

/// The lowercase name `validate_ir` looks a language's validator up by.
pub open spec fn lang_key(l: Language) -> Seq<char> {
    match l {
        Language::C => "c"@,
        Language::Cpp => "cpp"@,
        Language::Rust => "rust"@,
        Language::Python => "python"@,
    }
}

/// The validator of each language of the IR.
pub open spec fn language_validator(l: Language) -> AnyValidator {
    match l {
        Language::C | Language::Cpp => AnyValidator::C(CValidator),
        Language::Rust => AnyValidator::Rust(RustValidator),
        Language::Python => AnyValidator::Python(PythonValidator),
    }
}

/// Everything `validate_ir` finds before looking for cycles: empty keys and
/// paths, bad function names, then the rules of the IR's language.
pub open spec fn base_errors(ir: ProjectIR) -> Seq<(ValidationKind, Seq<char>, Seq<char>)> {
    let cs = ir.components.view();
    per_comp(cs, |k: Seq<char>, c: Component| structure_of(k, c)) + per_comp(
        cs,
        |k: Seq<char>, c: Component| semantic_of(k, c),
    ) + language_validator(ir.language).errors_for(cs)
}

/// Validates an IR: its structure, function names, the rules of its
/// language and the absence of dependency cycles. Every finding is reported.
pub fn validate_ir(ir: &ProjectIR) -> (r: Result<(), Vec<ValidationError>>)
    ensures
        r is Ok <==> base_errors(*ir).len() == 0 && crate::linker::ir_acyclic(ir.components.view()),
        r matches Err(v) ==> crate::linker::ir_acyclic(ir.components.view()) ==> evs(v@) == base_errors(*ir),
        r matches Err(v) ==> !crate::linker::ir_acyclic(ir.components.view()) ==> {
            &&& evs(v@).len() == base_errors(*ir).len() + 1
            &&& evs(v@).take(base_errors(*ir).len() as int) == base_errors(*ir)
            &&& evs(v@).last().0 == ValidationKind::CircularDispatch
            &&& evs(v@).last().1 == "ProjectGraph"@
        },
{
    let mut errors: Vec<ValidationError> = Vec::new();
    append_errs(&mut errors, validate_structure(ir));
    append_errs(&mut errors, validate_semantic(ir));
    let lang_str = match ir.language {
        Language::C => "c",
        Language::Cpp => "cpp",
        Language::Rust => "rust",
        Language::Python => "python",
    };
    proof {
        reveal_strlit("c");
        reveal_strlit("cpp");
        reveal_strlit("rust");
        reveal_strlit("python");
        assert(crate::text::all_ascii(lang_str@));
        assert(crate::text::ascii_lowercase(lang_str@) =~= lang_str@);
        assert(lang_str@ == lang_key(ir.language));
    }
    match get_validator(lang_str) {
        Some(v) => {
            append_errs(&mut errors, v.validate(ir));
        },
        None => {
            push_err(&mut errors, ValidationKind::InvalidBackend, owned("ProjectIR"), concat_strs("No validator found for language: ", ir.language.name()));
        },
    }
    proof {
        assert(evs(errors@) =~= base_errors(*ir));
    }
    let ghost base = evs(errors@);
    match link_dependencies(ir) {
        Err(cycle_msg) => {
            push_err(&mut errors, ValidationKind::CircularDispatch, owned("ProjectGraph"), cycle_msg);
            proof {
                assert(evs(errors@).take(base.len() as int) =~= base);
            }
        },
        Ok(_) => {},
    }
    assert(evs(errors@).len() == errors@.len());
    if errors.len() == 0 {
        Ok(())
    } else {
        Err(errors)
    }
}

proof fn lemma_per_comp_has(
    cs: Seq<(Seq<char>, Component)>,
    f: spec_fn(Seq<char>, Component) -> Seq<(ValidationKind, Seq<char>, Seq<char>)>,
    i: int,
    x: (ValidationKind, Seq<char>, Seq<char>),
)
    requires
        0 <= i < cs.len(),
        f(cs[i].0, cs[i].1).contains(x),
    ensures
        per_comp(cs, f).contains(x),
    decreases cs.len(),
{
    let last = f(cs.last().0, cs.last().1);
    let pre = per_comp(cs.drop_last(), f);
    if i == cs.len() - 1 {
        let k = choose|k: int| 0 <= k < last.len() && last[k] == x;
        assert((pre + last)[pre.len() + k] == x);
    } else {
        lemma_per_comp_has(cs.drop_last(), f, i, x);
        let k = choose|k: int| 0 <= k < pre.len() && pre[k] == x;
        assert((pre + last)[k] == x);
    }
}

proof fn lemma_fn_names_has(key: Seq<char>, fs: Seq<(Seq<char>, Function)>, j: int)
    requires
        0 <= j < fs.len(),
        bad_fn_name(fs[j].0),
    ensures
        fn_names_of(key, fs).contains((ValidationKind::Semantic, key + "."@ + fs[j].0, "Invalid function name"@)),
    decreases fs.len(),
{
    let x = (ValidationKind::Semantic, key + "."@ + fs[j].0, "Invalid function name"@);
    let pre = fn_names_of(key, fs.drop_last());
    let last = one_if(bad_fn_name(fs.last().0), ValidationKind::Semantic, key + "."@ + fs.last().0, "Invalid function name"@);
    if j == fs.len() - 1 {
        assert((pre + last)[pre.len() as int] == x);
    } else {
        lemma_fn_names_has(key, fs.drop_last(), j);
        let k = choose|k: int| 0 <= k < pre.len() && pre[k] == x;
        assert((pre + last)[k] == x);
    }
}

/// A function whose name is empty or starts with `_` is reported: for every
/// component `key` and every such function `name`, the findings hold
/// `(Semantic, key.name, "Invalid function name")`, so `validate_ir`
/// returns `Err` and its findings include that one.
pub proof fn lemma_invalid_function_name_reported(ir: ProjectIR, i: int, j: int)
    requires
        0 <= i < ir.components.view().len(),
        0 <= j < ir.components.view()[i].1.functions.view().len(),
        ir.components.view()[i].1.functions.view()[j].0.len() == 0
            || ir.components.view()[i].1.functions.view()[j].0[0] == '_',
    ensures
        base_errors(ir).contains((
            ValidationKind::Semantic,
            ir.components.view()[i].0 + "."@ + ir.components.view()[i].1.functions.view()[j].0,
            "Invalid function name"@,
        )),
        base_errors(ir).len() > 0,
{
    let cs = ir.components.view();
    let key = cs[i].0;
    let fs = cs[i].1.functions.view();
    let name = fs[j].0;
    let x = (ValidationKind::Semantic, key + "."@ + name, "Invalid function name"@);
    reveal_strlit("_");
    if name.len() > 0 {
        assert(name.subrange(0, 1) =~= "_"@);
    }
    assert(bad_fn_name(name));
    lemma_fn_names_has(key, fs, j);
    let f = |k: Seq<char>, c: Component| semantic_of(k, c);
    assert(f(cs[i].0, cs[i].1) == fn_names_of(key, fs));
    lemma_per_comp_has(cs, f, i, x);
    let a = per_comp(cs, |k: Seq<char>, c: Component| structure_of(k, c));
    let b = per_comp(cs, f);
    let c = language_validator(ir.language).errors_for(cs);
    let k = choose|k: int| 0 <= k < b.len() && b[k] == x;
    assert(base_errors(ir) == a + b + c);
    assert((a + b + c)[a.len() + k] == x);
}

/// A reference that names no component and no task.
pub open spec fn orphan(keys: Seq<Seq<char>>, k: Seq<char>) -> bool {
    !keys.contains(k) && !starts_with(k, "task_"@)
}

/// The findings on the tasks of a task graph.
pub open spec fn task_errors(keys: Seq<Seq<char>>, tasks: Seq<Seq<char>>) -> Seq<(ValidationKind, Seq<char>, Seq<char>)>
    decreases tasks.len(),
{
    if tasks.len() == 0 {
        seq![]
    } else {
        task_errors(keys, tasks.drop_last()) + one_if(
            orphan(keys, tasks.last()),
            ValidationKind::OrphanDependency,
            tasks.last(),
            "Task references non-existent component: "@ + tasks.last(),
        )
    }
}

/// The findings on the dependencies `ds` of a function of component `key`.
pub open spec fn dep_errors(keys: Seq<Seq<char>>, key: Seq<char>, ds: Seq<Seq<char>>) -> Seq<(ValidationKind, Seq<char>, Seq<char>)>
    decreases ds.len(),
{
    if ds.len() == 0 {
        seq![]
    } else {
        dep_errors(keys, key, ds.drop_last()) + one_if(
            orphan(keys, ds.last()),
            ValidationKind::OrphanDependency,
            key + ".depends_on."@ + ds.last(),
            "Function dependency points to non-existent component: "@ + ds.last(),
        )
    }
}

/// The findings on the dependencies of the functions `fs` of component `key`.
pub open spec fn fn_dep_errors(keys: Seq<Seq<char>>, key: Seq<char>, fs: Seq<(Seq<char>, Function)>) -> Seq<(ValidationKind, Seq<char>, Seq<char>)>
    decreases fs.len(),
{
    if fs.len() == 0 {
        seq![]
    } else {
        fn_dep_errors(keys, key, fs.drop_last()) + dep_errors(keys, key, fs.last().1.dependencies.view())
    }
}

/// Task ids and function dependencies that name no component (ids of the
/// form `task_...` are exempt).
pub fn validate_runtime_contract(ir: &ProjectIR, task_graph: &[String]) -> (errs: Vec<ValidationError>)
    ensures
        evs(errs@) == task_errors(crate::ordmap::keys_of(ir.components.view()), task_graph@.map_values(|t: String| t@))
            + per_comp(
            ir.components.view(),
            |k: Seq<char>, c: Component| fn_dep_errors(crate::ordmap::keys_of(ir.components.view()), k, c.functions.view()),
        ),
{
    let ghost keys = crate::ordmap::keys_of(ir.components.view());
    let ghost tv = task_graph@.map_values(|t: String| t@);
    let mut errs: Vec<ValidationError> = Vec::new();
    let mut t: usize = 0;
    assert(tv.take(0) =~= Seq::<Seq<char>>::empty());
    while t < task_graph.len()
        invariant
            keys == crate::ordmap::keys_of(ir.components.view()),
            tv == task_graph@.map_values(|t: String| t@),
            t <= task_graph@.len(),
            evs(errs@) == task_errors(keys, tv.take(t as int)),
        decreases task_graph.len() - t,
    {
        let key = &task_graph[t];
        let known = ir.components.contains_key(key.as_str());
        proof {
            crate::ordmap::lemma_keys_contains(ir.components.view(), key@);
        }
        if !known && !str_starts_with(key.as_str(), "task_") {
            push_err(&mut errs, ValidationKind::OrphanDependency, key.clone(), concat_strs("Task references non-existent component: ", key.as_str()));
        }
        proof {
            assert(tv.take(t + 1).drop_last() =~= tv.take(t as int));
            assert(tv.take(t + 1).last() == key@);
            assert(evs(errs@) =~= task_errors(keys, tv.take(t + 1)));
        }
        t += 1;
    }
    assert(tv.take(task_graph@.len() as int) =~= tv);
    let ghost e0 = evs(errs@);
    let ghost cs = ir.components.view();
    let n = ir.components.len();
    let mut i: usize = 0;
    assert(e0 + per_comp(cs.take(0), |k: Seq<char>, c: Component| fn_dep_errors(keys, k, c.functions.view())) =~= e0);
    while i < n
        invariant
            keys == crate::ordmap::keys_of(ir.components.view()),
            cs == ir.components.view(),
            n == cs.len(),
            i <= n,
            evs(errs@) == e0 + per_comp(cs.take(i as int), |k: Seq<char>, c: Component| fn_dep_errors(keys, k, c.functions.view())),
        decreases n - i,
    {
        let key = ir.components.key_at(i);
        let comp = ir.components.value_at(i);
        let ghost fs = comp.functions.view();
        let ghost e1 = evs(errs@);
        let m = comp.functions.len();
        let mut j: usize = 0;
        assert(e1 + fn_dep_errors(keys, key@, fs.take(0)) =~= e1);
        while j < m
            invariant
                keys == crate::ordmap::keys_of(ir.components.view()),
                fs == comp.functions.view(),
                m == fs.len(),
                j <= m,
                evs(errs@) == e1 + fn_dep_errors(keys, key@, fs.take(j as int)),
            decreases m - j,
        {
            let f = comp.functions.value_at(j);
            let ghost ds = f.dependencies.view();
            let ghost e2 = evs(errs@);
            let nd = f.dependencies.len();
            let mut k: usize = 0;
            assert(e2 + dep_errors(keys, key@, ds.take(0)) =~= e2);
            while k < nd
                invariant
                    keys == crate::ordmap::keys_of(ir.components.view()),
                    ds == f.dependencies.view(),
                    nd == ds.len(),
                    k <= nd,
                    evs(errs@) == e2 + dep_errors(keys, key@, ds.take(k as int)),
                decreases nd - k,
            {
                let dep = f.dependencies.at(k);
                let known = ir.components.contains_key(dep.as_str());
                proof {
                    crate::ordmap::lemma_keys_contains(ir.components.view(), dep@);
                }
                if !known && !str_starts_with(dep.as_str(), "task_") {
                    let target = cat3(key.as_str(), ".depends_on.", dep.as_str());
                    push_err(&mut errs, ValidationKind::OrphanDependency, target, concat_strs("Function dependency points to non-existent component: ", dep.as_str()));
                }
                proof {
                    assert(ds.take(k + 1).drop_last() =~= ds.take(k as int));
                    assert(evs(errs@) =~= e2 + dep_errors(keys, key@, ds.take(k + 1)));
                }
                k += 1;
            }
            proof {
                assert(ds.take(nd as int) =~= ds);
                assert(fs.take(j + 1).drop_last() =~= fs.take(j as int));
                assert(evs(errs@) =~= e1 + fn_dep_errors(keys, key@, fs.take(j + 1)));
            }
            j += 1;
        }
        proof {
            assert(fs.take(m as int) =~= fs);
            lemma_per_comp_step(cs, |k: Seq<char>, c: Component| fn_dep_errors(keys, k, c.functions.view()), i as int);
        }
        i += 1;
    }
    assert(cs.take(n as int) =~= cs);
    errs
}

/// The backends this library can target.
pub open spec fn supported_language(l: Seq<char>) -> bool {
    l == "c"@ || l == "cpp"@ || l == "rust"@ || l == "python"@ || l == "javascript"@ || l == "typescript"@
}

/// Refuses a language that has no backend; the required features are not examined.
pub fn validate_language_capability(language: &str, required_features: &[&str]) -> (r: Result<(), ValidationError>)
    ensures
        r is Ok <==> supported_language(language@),
        r matches Err(e) ==> ev(e) == (ValidationKind::InvalidBackend, language@, "Unsupported language backend: "@ + language@),
{
    let supported = str_eq(language, "c") || str_eq(language, "cpp") || str_eq(language, "rust")
        || str_eq(language, "python") || str_eq(language, "javascript") || str_eq(language, "typescript");
    if !supported {
        return Err(ValidationError {
            kind: ValidationKind::InvalidBackend,
            target: owned(language),
            message: concat_strs("Unsupported language backend: ", language),
        });
    }
    Ok(())
}

} // verus!
