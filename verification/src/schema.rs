//! The project IR: components, functions, and the runtime declarations of a project.
use vstd::prelude::*;
use crate::ordmap::{keys_of, lookup, StrMap, StrSet};
use crate::text::{
    all_ascii, ascii_lower, ascii_lowercase, ascii_upper, ascii_uppercase, chars_eq, chars_of, concat_strs,
    lowercase, lowercase_chars, owned,
};
use crate::canonicalizer::{canonical_key, canonicalize_path};

verus! {

/// Who may rewrite a file.
#[derive(Clone, Copy, Debug, PartialEq, Eq, Structural)]
pub enum FileAuthority {
    Immutable,
    ValidatorOwned,
    GeneratorPatchable,
    HumanOwned,
}

impl Default for FileAuthority {
    fn default() -> (r: Self)
        ensures
            r == FileAuthority::GeneratorPatchable,
    {
        FileAuthority::GeneratorPatchable
    }
}

/// A line range of a file that the generator may patch.
#[derive(Clone, Debug)]
pub struct PatchRegion {
    pub id: String,
    pub start_line: usize,
    pub end_line: usize,
}

/// Ownership of a file: its authority and whether the validator locks it.
#[derive(Clone, Debug)]
pub struct OwnershipMetadata {
    pub authority: FileAuthority,
    pub validator_locked: bool,
    pub patchable_regions: Vec<PatchRegion>,
}

impl Default for OwnershipMetadata {
    fn default() -> (r: Self)
        ensures
            r.authority == FileAuthority::GeneratorPatchable,
            !r.validator_locked,
            r.patchable_regions@.len() == 0,
    {
        OwnershipMetadata {
            authority: FileAuthority::GeneratorPatchable,
            validator_locked: false,
            patchable_regions: Vec::new(),
        }
    }
}

impl OwnershipMetadata {
    pub fn immutable() -> (r: Self)
        ensures
            r.authority == FileAuthority::Immutable,
            r.validator_locked,
            r.patchable_regions@.len() == 0,
    {
        OwnershipMetadata {
            authority: FileAuthority::Immutable,
            validator_locked: true,
            patchable_regions: Vec::new(),
        }
    }

    pub fn validator_owned() -> (r: Self)
        ensures
            r.authority == FileAuthority::ValidatorOwned,
            r.validator_locked,
            r.patchable_regions@.len() == 0,
    {
        OwnershipMetadata {
            authority: FileAuthority::ValidatorOwned,
            validator_locked: true,
            patchable_regions: Vec::new(),
        }
    }

    pub fn generator_patchable() -> (r: Self)
        ensures
            r.authority == FileAuthority::GeneratorPatchable,
            !r.validator_locked,
            r.patchable_regions@.len() == 0,
    {
        OwnershipMetadata {
            authority: FileAuthority::GeneratorPatchable,
            validator_locked: false,
            patchable_regions: Vec::new(),
        }
    }

    pub fn human_owned() -> (r: Self)
        ensures
            r.authority == FileAuthority::HumanOwned,
            !r.validator_locked,
            r.patchable_regions@.len() == 0,
    {
        OwnershipMetadata {
            authority: FileAuthority::HumanOwned,
            validator_locked: false,
            patchable_regions: Vec::new(),
        }
    }
}

/// The language a project is written in.
#[derive(Clone, Copy, Debug, PartialEq, Eq, Structural)]
pub enum Language {
    C,
    Cpp,
    Rust,
    Python,
}

impl Language {
    /// The variant's name, as `Debug` prints it.
    pub open spec fn spec_name(self) -> Seq<char> {
        match self {
            Language::C => "C"@,
            Language::Cpp => "Cpp"@,
            Language::Rust => "Rust"@,
            Language::Python => "Python"@,
        }
    }

    pub fn name(&self) -> (s: &'static str)
        ensures
            s@ == self.spec_name(),
    {
        match self {
            Language::C => "C",
            Language::Cpp => "Cpp",
            Language::Rust => "Rust",
            Language::Python => "Python",
        }
    }
}

impl Default for Language {
    fn default() -> (r: Self)
        ensures
            r == Language::C,
    {
        Language::C
    }
}

#[derive(Clone, Copy, Debug, PartialEq, Eq, Structural)]
pub enum Platform {
    Generic,
    Win32,
    Linux,
}

impl Default for Platform {
    fn default() -> (r: Self)
        ensures
            r == Platform::Generic,
    {
        Platform::Generic
    }
}

/// The runtime subsystem: governs entry point, linker and validation.
#[derive(Clone, Copy, Debug, PartialEq, Eq, Structural)]
pub enum Subsystem {
    Console,
    WindowsGui,
    Posix,
    Gtk4,
}

impl Default for Subsystem {
    fn default() -> (r: Self)
        ensures
            r == Subsystem::Console,
    {
        Subsystem::Console
    }
}

/// The kind of program entry point.
#[derive(Clone, Copy, Debug, PartialEq, Eq, Structural)]
pub enum EntrypointType {
    Main,
    WinMain,
    WWinMain,
}

impl Default for EntrypointType {
    fn default() -> (r: Self)
        ensures
            r == EntrypointType::Main,
    {
        EntrypointType::Main
    }
}

/// The entry point a (lowercased) name designates.
pub open spec fn entrypoint_of(lower: Seq<char>) -> EntrypointType {
    if lower == "main"@ || lower == "wmain"@ {
        EntrypointType::Main
    } else if lower == "winmain"@ {
        EntrypointType::WinMain
    } else if lower == "wwinmain"@ || lower == "wwinmain16"@ || lower == "wwinmainw"@ || lower
        == "wwinmainunicode"@ || lower == "wwinmaina"@ || lower == "wwinmainansi"@ {
        EntrypointType::WWinMain
    } else {
        EntrypointType::Main
    }
}

fn eq_lit(v: &Vec<char>, lit: &str) -> (b: bool)
    ensures
        b == (v@ == lit@),
{
    let l = chars_of(lit);
    chars_eq(v, &l)
}

/// The name an entry point is written under.
pub open spec fn canonical_name_of(e: EntrypointType) -> Seq<char> {
    match e {
        EntrypointType::Main => "main"@,
        EntrypointType::WinMain => "WinMain"@,
        EntrypointType::WWinMain => "wWinMain"@,
    }
}

/// Reading an entry point's name ignores ASCII case (for ASCII names,
/// `from_str` reads `ascii_lowercase`): upper-casing a name reads the same
/// entry point; each entry point's canonical name reads back as itself;
/// and a name of none (such as `foo`) reads as `Main`.
pub proof fn lemma_entrypoint_names(s: Seq<char>, e: EntrypointType)
    requires
        all_ascii(s),
    ensures
        entrypoint_of(ascii_lowercase(ascii_uppercase(s))) == entrypoint_of(ascii_lowercase(s)),
        entrypoint_of(ascii_lowercase(canonical_name_of(e))) == e,
        entrypoint_of(ascii_lowercase("foo"@)) == EntrypointType::Main,
{
    assert forall|i: int| 0 <= i < s.len() implies ascii_lower(ascii_upper(s[i])) == ascii_lower(s[i]) by {
        let c = s[i];
        if 'a' <= c && c <= 'z' {
            assert(ascii_upper(c) as u32 == c as u32 - 32);
        }
    }
    assert(ascii_lowercase(ascii_uppercase(s)) =~= ascii_lowercase(s));
    reveal_strlit("main");
    reveal_strlit("WinMain");
    reveal_strlit("wWinMain");
    reveal_strlit("winmain");
    reveal_strlit("wwinmain");
    reveal_strlit("wmain");
    reveal_strlit("foo");
    reveal_strlit("wwinmain16");
    reveal_strlit("wwinmainw");
    reveal_strlit("wwinmainunicode");
    reveal_strlit("wwinmaina");
    reveal_strlit("wwinmainansi");
    assert(ascii_lowercase("main"@) =~= "main"@);
    assert(ascii_lowercase("WinMain"@) =~= "winmain"@);
    assert(ascii_lowercase("wWinMain"@) =~= "wwinmain"@);
    assert(ascii_lowercase("foo"@) =~= "foo"@);
}

impl EntrypointType {
    pub fn from_str(s: &str) -> (r: Self)
        ensures
            r == entrypoint_of(lowercase(s@)),
            all_ascii(s@) ==> r == entrypoint_of(ascii_lowercase(s@)),
    {
        let sv = chars_of(s);
        let l = lowercase_chars(&sv);
        if eq_lit(&l, "main") || eq_lit(&l, "wmain") {
            EntrypointType::Main
        } else if eq_lit(&l, "winmain") {
            EntrypointType::WinMain
        } else if eq_lit(&l, "wwinmain") || eq_lit(&l, "wwinmain16") || eq_lit(&l, "wwinmainw")
            || eq_lit(&l, "wwinmainunicode") || eq_lit(&l, "wwinmaina") || eq_lit(
            &l,
            "wwinmainansi",
        ) {
            EntrypointType::WWinMain
        } else {
            EntrypointType::Main
        }
    }

    pub fn canonical_name(&self) -> (r: &'static str)
        ensures
            r@ == match *self {
                EntrypointType::Main => "main"@,
                EntrypointType::WinMain => "WinMain"@,
                EntrypointType::WWinMain => "wWinMain"@,
            },
    {
        match self {
            EntrypointType::Main => "main",
            EntrypointType::WinMain => "WinMain",
            EntrypointType::WWinMain => "wWinMain",
        }
    }

    pub fn canonical_signature(&self, lang: Language) -> (r: String)
        ensures
            r@ == match *self {
                EntrypointType::Main => match lang {
                    Language::Rust => "fn main()"@,
                    Language::Python => "def main()"@,
                    _ => "int main(void)"@,
                },
                EntrypointType::WinMain => "int WINAPI WinMain(HINSTANCE, HINSTANCE, LPSTR, int)"@,
                EntrypointType::WWinMain => "int WINAPI wWinMain(HINSTANCE, HINSTANCE, PWSTR, int)"@,
            },
    {
        match self {
            EntrypointType::Main => match lang {
                Language::Rust => owned("fn main()"),
                Language::Python => owned("def main()"),
                _ => owned("int main(void)"),
            },
            EntrypointType::WinMain => owned("int WINAPI WinMain(HINSTANCE, HINSTANCE, LPSTR, int)"),
            EntrypointType::WWinMain => owned(
                "int WINAPI wWinMain(HINSTANCE, HINSTANCE, PWSTR, int)",
            ),
        }
    }

    pub fn canonical_file(&self, lang: Language) -> (r: String)
        ensures
            r@ == (match *self {
                EntrypointType::Main => "src/main."@,
                _ => "src/winmain."@,
            }) + (match lang {
                Language::Cpp | Language::Rust => "cpp"@,
                _ => "c"@,
            }),
    {
        let ext = match lang {
            Language::Cpp | Language::Rust => "cpp",
            _ => "c",
        };
        match self {
            EntrypointType::Main => concat_strs("src/main.", ext),
            EntrypointType::WinMain => concat_strs("src/winmain.", ext),
            EntrypointType::WWinMain => concat_strs("src/winmain.", ext),
        }
    }
}

/// How the program runs.
#[derive(Clone, Copy, Debug, PartialEq, Eq, Structural)]
pub enum RuntimeModel {
    Console,
    Win32Gui,
    EventDriven,
    Gtk4,
}

impl Default for RuntimeModel {
    fn default() -> (r: Self)
        ensures
            r == RuntimeModel::Console,
    {
        RuntimeModel::Console
    }
}

/// Win32-specific component taxonomy.
#[derive(Clone, Copy, Debug, PartialEq, Eq, Structural)]
pub enum Win32ComponentType {
    Win32WindowClass,
    Win32WndProc,
    Win32MessageLoop,
    Win32Resource,
    Win32Dialog,
    LuaRuntime,
}

impl Default for Win32ComponentType {
    fn default() -> (r: Self)
        ensures
            r == Win32ComponentType::Win32WindowClass,
    {
        Win32ComponentType::Win32WindowClass
    }
}

/// A declared architectural constraint.
#[derive(Clone, Debug)]
pub struct Constraint {
    pub id: u64,
    pub kind: String,
    pub target: String,
    pub condition: String,
    pub message: String,
}

/// How critical a component is.
#[derive(Clone, Copy, Debug, PartialEq, Eq, Structural)]
pub enum ComponentTier {
    Core,
    Optional,
    Experimental,
}

impl Default for ComponentTier {
    fn default() -> (r: Self)
        ensures
            r == ComponentTier::Core,
    {
        ComponentTier::Core
    }
}

/// Semantic classification of a component.
#[derive(Clone, Copy, Debug, PartialEq, Eq, Hash, Structural)]
pub enum ComponentType {
    ProjectModule,
    SystemLibrary,
    ExternalRuntime,
    Win32WindowClass,
    Win32WndProc,
    Win32MessageLoop,
    Win32Resource,
    Win32Dialog,
    LuaRuntime,
}

impl Default for ComponentType {
    fn default() -> (r: Self)
        ensures
            r == ComponentType::ProjectModule,
    {
        ComponentType::ProjectModule
    }
}

/// A source file of the project.
#[derive(Clone)]
pub struct Component {
    pub name: String,
    pub file_path: String,
    pub functions: StrMap<Function>,
    pub imports: StrSet,
    pub associated_files: Vec<String>,
    pub is_entrypoint: bool,
    pub data_models: Vec<String>,
    pub metadata: StrMap<String>,
    pub allowed_includes: StrSet,
    pub forbidden_includes: StrSet,
    pub forbidden_symbols: StrSet,
    pub tier: ComponentTier,
    pub is_blocking: bool,
    pub locked: bool,
    pub component_type: ComponentType,
    pub subsystem: Option<Subsystem>,
    pub dll_imports: StrSet,
    pub ownership: OwnershipMetadata,
}

/// The default of `Component::is_blocking`.
pub fn default_true() -> (b: bool)
    ensures
        b,
{
    true
}

/// A function of a component.
#[derive(Clone)]
pub struct Function {
    pub name: String,
    pub signature: String,
    pub dependencies: StrSet,
    pub body_hash: Option<u64>,
    pub locked: bool,
}

/// The project IR.
#[derive(Clone)]
pub struct ProjectIR {
    pub node_mapping: StrMap<String>,
    pub components: StrMap<Component>,
    pub constraints: Vec<Constraint>,
    pub constraint_ids: Vec<u64>,
    pub thought: Option<String>,
    pub language: Language,
    pub platform: Platform,
    pub subsystem: Subsystem,
    pub entrypoint_type: EntrypointType,
    pub runtime_model: RuntimeModel,
}

impl ProjectIR {
    /// An IR with no components and the default runtime declarations.
    pub open spec fn is_empty_default(&self) -> bool {
        &&& self.node_mapping.view().len() == 0
        &&& self.components.view().len() == 0
        &&& self.constraints@.len() == 0
        &&& self.constraint_ids@.len() == 0
        &&& self.thought is None
        &&& self.language == Language::C
        &&& self.platform == Platform::Generic
        &&& self.subsystem == Subsystem::Console
        &&& self.entrypoint_type == EntrypointType::Main
        &&& self.runtime_model == RuntimeModel::Console
    }

    pub fn new() -> (r: Self)
        ensures
            r.is_empty_default(),
    {
        ProjectIR {
            node_mapping: StrMap::new(),
            components: StrMap::new(),
            constraints: Vec::new(),
            constraint_ids: Vec::new(),
            thought: None,
            language: Language::C,
            platform: Platform::Generic,
            subsystem: Subsystem::Console,
            entrypoint_type: EntrypointType::Main,
            runtime_model: RuntimeModel::Console,
        }
    }

    /// The component registered under the canonical form of a path.
    pub fn get_component(&self, canonical_path: &str) -> (r: Option<&Component>)
        ensures
            r matches Some(c) ==> lookup(self.components.view(), canonical_key(canonical_path@))
                == Some(*c),
            r is None ==> lookup(self.components.view(), canonical_key(canonical_path@)) is None,
    {
        let key = canonicalize_path(canonical_path);
        self.components.get(key.as_str())
    }

    /// All component keys, in order.
    pub fn get_all_keys(&self) -> (r: Vec<String>)
        ensures
            r.deep_view() == keys_of(self.components.view()),
    {
        self.components.keys_vec()
    }
}

impl Default for ProjectIR {
    fn default() -> (r: Self)
        ensures
            r.is_empty_default(),
    {
        ProjectIR::new()
    }
}

} // verus!
