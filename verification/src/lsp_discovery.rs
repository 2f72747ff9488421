//! Discovery of language servers: the servers known by language, the
//! extensions they handle, and how to install a missing one.
use vstd::prelude::*;



use crate::text::{
    chars_eq, chars_eq_str, chars_of, clone_strings, contains_seq, contains_str, join, owned, push_all, push_str,
    string_from_chars, string_views, str_eq, join_strings, BULLET, EM_DASH, RIGHT_ARROW,
};

verus! {

/// A single install command for a package manager or platform.
#[derive(Debug, Clone, PartialEq, Eq)]
pub struct InstallInstruction {
    pub label: String,
    pub command: String,
}

/// Label and command of each instruction.
pub open spec fn instruction_views(v: Seq<InstallInstruction>) -> Seq<(Seq<char>, Seq<char>)> {
    v.map_values(|i: InstallInstruction| (i.label@, i.command@))
}

fn push_instruction(v: &mut Vec<InstallInstruction>, label: &str, command: &str)
    ensures
        instruction_views(final(v)@) == instruction_views(old(v)@).push((label@, command@)),
{
    let ghost before = instruction_views(v@);
    v.push(InstallInstruction { label: owned(label), command: owned(command) });
    assert(instruction_views(v@) =~= before.push((label@, command@)));
}

pub open spec fn rust_install() -> Seq<(Seq<char>, Seq<char>)> {
    seq![
        ("rustup"@, "rustup component add rust-analyzer"@),
        ("Ubuntu/Debian"@, "sudo apt install rust-analyzer"@),
        ("Fedora"@, "sudo dnf install rust-analyzer"@),
        ("Arch"@, "sudo pacman -S rust-analyzer"@),
        ("openSUSE"@, "sudo zypper install rust-analyzer"@),
        ("Alpine"@, "sudo apk add rust-analyzer"@),
        ("Void"@, "sudo xbps-install rust-analyzer"@),
        ("NixOS"@, "nix-env -iA nixpkgs.rust-analyzer"@),
        ("macOS"@, "brew install rust-analyzer"@),
        ("pip"@, "pip install rust-analyzer"@),
    ]
}

fn rust_install_instructions() -> (r: Vec<InstallInstruction>)
    ensures
        instruction_views(r@) == rust_install(),
{
    let mut v: Vec<InstallInstruction> = Vec::new();
    push_instruction(&mut v, "rustup", "rustup component add rust-analyzer");
    push_instruction(&mut v, "Ubuntu/Debian", "sudo apt install rust-analyzer");
    push_instruction(&mut v, "Fedora", "sudo dnf install rust-analyzer");
    push_instruction(&mut v, "Arch", "sudo pacman -S rust-analyzer");
    push_instruction(&mut v, "openSUSE", "sudo zypper install rust-analyzer");
    push_instruction(&mut v, "Alpine", "sudo apk add rust-analyzer");
    push_instruction(&mut v, "Void", "sudo xbps-install rust-analyzer");
    push_instruction(&mut v, "NixOS", "nix-env -iA nixpkgs.rust-analyzer");
    push_instruction(&mut v, "macOS", "brew install rust-analyzer");
    push_instruction(&mut v, "pip", "pip install rust-analyzer");
    assert(instruction_views(v@) =~= rust_install());
    v
}

pub open spec fn c_cpp_install() -> Seq<(Seq<char>, Seq<char>)> {
    seq![
        ("Ubuntu/Debian"@, "sudo apt install clangd"@),
        ("Fedora"@, "sudo dnf install clang-tools-extra"@),
        ("Arch"@, "sudo pacman -S clang"@),
        ("openSUSE"@, "sudo zypper install clang-tools"@),
        ("Alpine"@, "sudo apk add clang-extra-tools"@),
        ("Void"@, "sudo xbps-install clang-tools-extra"@),
        ("NixOS"@, "nix-env -iA nixpkgs.clang-tools"@),
        ("macOS"@, "brew install llvm"@),
    ]
}

fn c_cpp_install_instructions() -> (r: Vec<InstallInstruction>)
    ensures
        instruction_views(r@) == c_cpp_install(),
{
    let mut v: Vec<InstallInstruction> = Vec::new();
    push_instruction(&mut v, "Ubuntu/Debian", "sudo apt install clangd");
    push_instruction(&mut v, "Fedora", "sudo dnf install clang-tools-extra");
    push_instruction(&mut v, "Arch", "sudo pacman -S clang");
    push_instruction(&mut v, "openSUSE", "sudo zypper install clang-tools");
    push_instruction(&mut v, "Alpine", "sudo apk add clang-extra-tools");
    push_instruction(&mut v, "Void", "sudo xbps-install clang-tools-extra");
    push_instruction(&mut v, "NixOS", "nix-env -iA nixpkgs.clang-tools");
    push_instruction(&mut v, "macOS", "brew install llvm");
    assert(instruction_views(v@) =~= c_cpp_install());
    v
}

pub open spec fn python_install() -> Seq<(Seq<char>, Seq<char>)> {
    seq![
        ("npm"@, "npm install -g pyright"@),
        ("pip"@, "pip install pyright"@),
        ("Arch"@, "sudo pacman -S pyright"@),
        ("NixOS"@, "nix-env -iA nixpkgs.pyright"@),
        ("macOS"@, "brew install pyright"@),
    ]
}

fn python_install_instructions() -> (r: Vec<InstallInstruction>)
    ensures
        instruction_views(r@) == python_install(),
{
    let mut v: Vec<InstallInstruction> = Vec::new();
    push_instruction(&mut v, "npm", "npm install -g pyright");
    push_instruction(&mut v, "pip", "pip install pyright");
    push_instruction(&mut v, "Arch", "sudo pacman -S pyright");
    push_instruction(&mut v, "NixOS", "nix-env -iA nixpkgs.pyright");
    push_instruction(&mut v, "macOS", "brew install pyright");
    assert(instruction_views(v@) =~= python_install());
    v
}

pub open spec fn go_install() -> Seq<(Seq<char>, Seq<char>)> {
    seq![
        ("go"@, "go install golang.org/x/tools/gopls@latest"@),
        ("Arch"@, "sudo pacman -S gopls"@),
        ("NixOS"@, "nix-env -iA nixpkgs.gopls"@),
        ("macOS"@, "brew install gopls"@),
    ]
}

fn go_install_instructions() -> (r: Vec<InstallInstruction>)
    ensures
        instruction_views(r@) == go_install(),
{
    let mut v: Vec<InstallInstruction> = Vec::new();
    push_instruction(&mut v, "go", "go install golang.org/x/tools/gopls@latest");
    push_instruction(&mut v, "Arch", "sudo pacman -S gopls");
    push_instruction(&mut v, "NixOS", "nix-env -iA nixpkgs.gopls");
    push_instruction(&mut v, "macOS", "brew install gopls");
    assert(instruction_views(v@) =~= go_install());
    v
}

pub open spec fn typescript_install() -> Seq<(Seq<char>, Seq<char>)> {
    seq![
        ("npm"@, "npm install -g typescript-language-server typescript"@),
        ("Arch"@, "sudo pacman -S typescript-language-server"@),
        ("NixOS"@, "nix-env -iA nixpkgs.typescript-language-server"@),
        ("macOS"@, "brew install typescript-language-server"@),
    ]
}

fn typescript_install_instructions() -> (r: Vec<InstallInstruction>)
    ensures
        instruction_views(r@) == typescript_install(),
{
    let mut v: Vec<InstallInstruction> = Vec::new();
    push_instruction(&mut v, "npm", "npm install -g typescript-language-server typescript");
    push_instruction(&mut v, "Arch", "sudo pacman -S typescript-language-server");
    push_instruction(&mut v, "NixOS", "nix-env -iA nixpkgs.typescript-language-server");
    push_instruction(&mut v, "macOS", "brew install typescript-language-server");
    assert(instruction_views(v@) =~= typescript_install());
    v
}

pub open spec fn java_install() -> Seq<(Seq<char>, Seq<char>)> {
    seq![
        ("Ubuntu/Debian"@, "sudo apt install eclipse-jdtls"@),
        ("Arch"@, "sudo pacman -S jdtls"@),
        ("NixOS"@, "nix-env -iA nixpkgs.eclipse-jdtls"@),
        ("macOS"@, "brew install jdtls"@),
    ]
}

fn java_install_instructions() -> (r: Vec<InstallInstruction>)
    ensures
        instruction_views(r@) == java_install(),
{
    let mut v: Vec<InstallInstruction> = Vec::new();
    push_instruction(&mut v, "Ubuntu/Debian", "sudo apt install eclipse-jdtls");
    push_instruction(&mut v, "Arch", "sudo pacman -S jdtls");
    push_instruction(&mut v, "NixOS", "nix-env -iA nixpkgs.eclipse-jdtls");
    push_instruction(&mut v, "macOS", "brew install jdtls");
    assert(instruction_views(v@) =~= java_install());
    v
}

pub open spec fn ruby_install() -> Seq<(Seq<char>, Seq<char>)> {
    seq![
        ("gem"@, "gem install solargraph"@),
        ("Arch"@, "sudo pacman -S solargraph"@),
        ("NixOS"@, "nix-env -iA nixpkgs.solargraph"@),
        ("macOS"@, "brew install solargraph"@),
    ]
}

fn ruby_install_instructions() -> (r: Vec<InstallInstruction>)
    ensures
        instruction_views(r@) == ruby_install(),
{
    let mut v: Vec<InstallInstruction> = Vec::new();
    push_instruction(&mut v, "gem", "gem install solargraph");
    push_instruction(&mut v, "Arch", "sudo pacman -S solargraph");
    push_instruction(&mut v, "NixOS", "nix-env -iA nixpkgs.solargraph");
    push_instruction(&mut v, "macOS", "brew install solargraph");
    assert(instruction_views(v@) =~= ruby_install());
    v
}

pub open spec fn lua_install() -> Seq<(Seq<char>, Seq<char>)> {
    seq![
        ("npm"@, "npm install -g lua-language-server"@),
        ("Ubuntu/Debian"@, "sudo apt install lua-language-server"@),
        ("Fedora"@, "sudo dnf install lua-language-server"@),
        ("Arch"@, "sudo pacman -S lua-language-server"@),
        ("NixOS"@, "nix-env -iA nixpkgs.lua-language-server"@),
        ("macOS"@, "brew install lua-language-server"@),
    ]
}

fn lua_install_instructions() -> (r: Vec<InstallInstruction>)
    ensures
        instruction_views(r@) == lua_install(),
{
    let mut v: Vec<InstallInstruction> = Vec::new();
    push_instruction(&mut v, "npm", "npm install -g lua-language-server");
    push_instruction(&mut v, "Ubuntu/Debian", "sudo apt install lua-language-server");
    push_instruction(&mut v, "Fedora", "sudo dnf install lua-language-server");
    push_instruction(&mut v, "Arch", "sudo pacman -S lua-language-server");
    push_instruction(&mut v, "NixOS", "nix-env -iA nixpkgs.lua-language-server");
    push_instruction(&mut v, "macOS", "brew install lua-language-server");
    assert(instruction_views(v@) =~= lua_install());
    v
}

pub open spec fn html_install() -> Seq<(Seq<char>, Seq<char>)> {
    seq![
        ("npm"@, "npm install -g vscode-langservers-extracted"@),
        ("Arch"@, "sudo pacman -S vscode-langservers-extracted"@),
        ("NixOS"@, "nix-env -iA nixpkgs.vscode-langservers-extracted"@),
        ("macOS"@, "brew install vscode-langservers-extracted"@),
    ]
}

fn html_install_instructions() -> (r: Vec<InstallInstruction>)
    ensures
        instruction_views(r@) == html_install(),
{
    let mut v: Vec<InstallInstruction> = Vec::new();
    push_instruction(&mut v, "npm", "npm install -g vscode-langservers-extracted");
    push_instruction(&mut v, "Arch", "sudo pacman -S vscode-langservers-extracted");
    push_instruction(&mut v, "NixOS", "nix-env -iA nixpkgs.vscode-langservers-extracted");
    push_instruction(&mut v, "macOS", "brew install vscode-langservers-extracted");
    assert(instruction_views(v@) =~= html_install());
    v
}

pub open spec fn bash_install() -> Seq<(Seq<char>, Seq<char>)> {
    seq![
        ("npm"@, "npm install -g bash-language-server"@),
        ("Arch"@, "sudo pacman -S bash-language-server"@),
        ("NixOS"@, "nix-env -iA nixpkgs.bash-language-server"@),
        ("macOS"@, "brew install bash-language-server"@),
    ]
}

fn bash_install_instructions() -> (r: Vec<InstallInstruction>)
    ensures
        instruction_views(r@) == bash_install(),
{
    let mut v: Vec<InstallInstruction> = Vec::new();
    push_instruction(&mut v, "npm", "npm install -g bash-language-server");
    push_instruction(&mut v, "Arch", "sudo pacman -S bash-language-server");
    push_instruction(&mut v, "NixOS", "nix-env -iA nixpkgs.bash-language-server");
    push_instruction(&mut v, "macOS", "brew install bash-language-server");
    assert(instruction_views(v@) =~= bash_install());
    v
}

pub open spec fn yaml_install() -> Seq<(Seq<char>, Seq<char>)> {
    seq![
        ("npm"@, "npm install -g yaml-language-server"@),
        ("Arch"@, "sudo pacman -S yaml-language-server"@),
        ("NixOS"@, "nix-env -iA nixpkgs.yaml-language-server"@),
        ("macOS"@, "brew install yaml-language-server"@),
    ]
}

fn yaml_install_instructions() -> (r: Vec<InstallInstruction>)
    ensures
        instruction_views(r@) == yaml_install(),
{
    let mut v: Vec<InstallInstruction> = Vec::new();
    push_instruction(&mut v, "npm", "npm install -g yaml-language-server");
    push_instruction(&mut v, "Arch", "sudo pacman -S yaml-language-server");
    push_instruction(&mut v, "NixOS", "nix-env -iA nixpkgs.yaml-language-server");
    push_instruction(&mut v, "macOS", "brew install yaml-language-server");
    assert(instruction_views(v@) =~= yaml_install());
    v
}

pub open spec fn gdscript_install() -> Seq<(Seq<char>, Seq<char>)> {
    seq![
        ("Godot Editor"@, "Download from https://godotengine.org"@),
        ("Arch"@, "sudo pacman -S godot"@),
        ("NixOS"@, "nix-env -iA nixpkgs.godot"@),
        ("macOS"@, "brew install godot"@),
    ]
}

fn gdscript_install_instructions() -> (r: Vec<InstallInstruction>)
    ensures
        instruction_views(r@) == gdscript_install(),
{
    let mut v: Vec<InstallInstruction> = Vec::new();
    push_instruction(&mut v, "Godot Editor", "Download from https://godotengine.org");
    push_instruction(&mut v, "Arch", "sudo pacman -S godot");
    push_instruction(&mut v, "NixOS", "nix-env -iA nixpkgs.godot");
    push_instruction(&mut v, "macOS", "brew install godot");
    assert(instruction_views(v@) =~= gdscript_install());
    v
}

/// The install instructions known for a language, in order (empty for an
/// unknown language).
pub open spec fn install_table(lang: Seq<char>) -> Seq<(Seq<char>, Seq<char>)> {
    if lang == "rust"@ {
        rust_install()
    } else if lang == "c/cpp"@ {
        c_cpp_install()
    } else if lang == "python"@ {
        python_install()
    } else if lang == "go"@ {
        go_install()
    } else if lang == "typescript"@ {
        typescript_install()
    } else if lang == "java"@ {
        java_install()
    } else if lang == "ruby"@ {
        ruby_install()
    } else if lang == "lua"@ {
        lua_install()
    } else if lang == "html"@ || lang == "css"@ || lang == "json"@ {
        html_install()
    } else if lang == "bash"@ {
        bash_install()
    } else if lang == "yaml"@ {
        yaml_install()
    } else if lang == "gdscript"@ {
        gdscript_install()
    } else {
        seq![]
    }
}

/// Install instructions for a known language server, covering common
/// distributions and package managers.
pub fn install_instructions_for(language: &str) -> (r: Vec<InstallInstruction>)
    ensures
        instruction_views(r@) == install_table(language@),
{
    if str_eq(language, "rust") {
        rust_install_instructions()
    } else if str_eq(language, "c/cpp") {
        c_cpp_install_instructions()
    } else if str_eq(language, "python") {
        python_install_instructions()
    } else if str_eq(language, "go") {
        go_install_instructions()
    } else if str_eq(language, "typescript") {
        typescript_install_instructions()
    } else if str_eq(language, "java") {
        java_install_instructions()
    } else if str_eq(language, "ruby") {
        ruby_install_instructions()
    } else if str_eq(language, "lua") {
        lua_install_instructions()
    } else if str_eq(language, "html") || str_eq(language, "css") || str_eq(language, "json") {
        html_install_instructions()
    } else if str_eq(language, "bash") {
        bash_install_instructions()
    } else if str_eq(language, "yaml") {
        yaml_install_instructions()
    } else if str_eq(language, "gdscript") {
        gdscript_install_instructions()
    } else {
        let v: Vec<InstallInstruction> = Vec::new();
        assert(instruction_views(v@) =~= Seq::<(Seq<char>, Seq<char>)>::empty());
        v
    }
}

/// The known servers: language, command, arguments and extensions.
pub open spec fn known_servers() -> Seq<(Seq<char>, Seq<char>, Seq<Seq<char>>, Seq<Seq<char>>)> {
    seq![
        ("rust"@, "rust-analyzer"@, Seq::<Seq<char>>::empty(), seq!["rs"@]),
        ("c/cpp"@, "clangd"@, Seq::<Seq<char>>::empty(), seq!["c"@, "h"@, "cpp"@, "hpp"@]),
        ("python"@, "pyright-langserver"@, seq!["--stdio"@], seq!["py"@]),
        ("go"@, "gopls"@, Seq::<Seq<char>>::empty(), seq!["go"@]),
        ("typescript"@, "typescript-language-server"@, seq!["--stdio"@], seq!["ts"@, "tsx"@, "js"@, "jsx"@]),
        ("java"@, "jdtls"@, Seq::<Seq<char>>::empty(), seq!["java"@]),
        ("ruby"@, "solargraph"@, seq!["stdio"@], seq!["rb"@]),
        ("lua"@, "lua-language-server"@, Seq::<Seq<char>>::empty(), seq!["lua"@]),
        ("html"@, "vscode-html-language-server"@, seq!["--stdio"@], seq!["html"@, "htm"@]),
        ("css"@, "vscode-css-language-server"@, seq!["--stdio"@], seq!["css"@, "scss"@, "less"@, "sass"@]),
        ("json"@, "vscode-json-language-server"@, seq!["--stdio"@], seq!["json"@, "jsonc"@]),
        ("bash"@, "bash-language-server"@, seq!["start"@], seq!["sh"@, "bash"@, "zsh"@]),
        ("yaml"@, "yaml-language-server"@, seq!["--stdio"@], seq!["yaml"@, "yml"@]),
        ("gdscript"@, "tcp://localhost:6008"@, Seq::<Seq<char>>::empty(), seq!["gd"@]),
    ]
}

/// Descriptor for a known language server: launch command, the file
/// extensions it handles, and how to install it.
#[derive(Debug, Clone, PartialEq, Eq)]
pub struct LspServerDescriptor {
    pub language: String,
    pub command: String,
    pub args: Vec<String>,
    pub extensions: Vec<String>,
    pub install_hint: Vec<InstallInstruction>,
}

/// Language, command, arguments and extensions of a descriptor.
pub open spec fn descriptor_view(d: LspServerDescriptor) -> (Seq<char>, Seq<char>, Seq<Seq<char>>, Seq<Seq<char>>) {
    (d.language@, d.command@, string_views(d.args@), string_views(d.extensions@))
}

/// The views of static strings.
pub open spec fn str_views(items: Seq<&str>) -> Seq<Seq<char>> {
    items.map_values(|s: &str| s@)
}

fn owned_strings(items: &[&str]) -> (r: Vec<String>)
    ensures
        string_views(r@) == str_views(items@),
{
    let mut r: Vec<String> = Vec::new();
    let mut i: usize = 0;
    while i < items.len()
        invariant
            i <= items.len(),
            string_views(r@) == str_views(items@).take(i as int),
        decreases items.len() - i,
    {
        let ghost before = string_views(r@);
        let item = owned(items[i]);
        r.push(item);
        assert(string_views(r@) =~= before.push(item@));
        assert(str_views(items@)[i as int] == items@[i as int]@);
        assert(string_views(r@) =~= str_views(items@).take(i + 1));
        i += 1;
    }
    assert(str_views(items@).take(items.len() as int) =~= str_views(items@));
    r
}

/// Whether a descriptor is the one the known table lists at some entry.
pub open spec fn describes(d: LspServerDescriptor, entry: (Seq<char>, Seq<char>, Seq<Seq<char>>, Seq<Seq<char>>)) -> bool {
    descriptor_view(d) == entry && instruction_views(d.install_hint@) == install_table(entry.0)
}

fn make_descriptor(language: &str, command: &str, args: &[&str], extensions: &[&str]) -> (d: LspServerDescriptor)
    ensures
        describes(d, (language@, command@, str_views(args@), str_views(extensions@))),
{
    LspServerDescriptor {
        language: owned(language),
        command: owned(command),
        args: owned_strings(args),
        extensions: owned_strings(extensions),
        install_hint: install_instructions_for(language),
    }
}

/// Owned copies of the known server descriptors, in table order.
pub fn known_lsp_servers() -> (r: Vec<LspServerDescriptor>)
    ensures
        r@.len() == known_servers().len(),
        forall|i: int| 0 <= i < r@.len() ==> describes(#[trigger] r@[i], known_servers()[i]),
{
    let a0: &[&str] = &[];
    let e0: &[&str] = &["rs"];
    assert(str_views(a0@) =~= Seq::<Seq<char>>::empty());
    assert(str_views(e0@) =~= seq!["rs"@]);
    let d0 = make_descriptor("rust", "rust-analyzer", a0, e0);
    let a1: &[&str] = &[];
    let e1: &[&str] = &["c", "h", "cpp", "hpp"];
    assert(str_views(a1@) =~= Seq::<Seq<char>>::empty());
    assert(str_views(e1@) =~= seq!["c"@, "h"@, "cpp"@, "hpp"@]);
    let d1 = make_descriptor("c/cpp", "clangd", a1, e1);
    let a2: &[&str] = &["--stdio"];
    let e2: &[&str] = &["py"];
    assert(str_views(a2@) =~= seq!["--stdio"@]);
    assert(str_views(e2@) =~= seq!["py"@]);
    let d2 = make_descriptor("python", "pyright-langserver", a2, e2);
    let a3: &[&str] = &[];
    let e3: &[&str] = &["go"];
    assert(str_views(a3@) =~= Seq::<Seq<char>>::empty());
    assert(str_views(e3@) =~= seq!["go"@]);
    let d3 = make_descriptor("go", "gopls", a3, e3);
    let a4: &[&str] = &["--stdio"];
    let e4: &[&str] = &["ts", "tsx", "js", "jsx"];
    assert(str_views(a4@) =~= seq!["--stdio"@]);
    assert(str_views(e4@) =~= seq!["ts"@, "tsx"@, "js"@, "jsx"@]);
    let d4 = make_descriptor("typescript", "typescript-language-server", a4, e4);
    let a5: &[&str] = &[];
    let e5: &[&str] = &["java"];
    assert(str_views(a5@) =~= Seq::<Seq<char>>::empty());
    assert(str_views(e5@) =~= seq!["java"@]);
    let d5 = make_descriptor("java", "jdtls", a5, e5);
    let a6: &[&str] = &["stdio"];
    let e6: &[&str] = &["rb"];
    assert(str_views(a6@) =~= seq!["stdio"@]);
    assert(str_views(e6@) =~= seq!["rb"@]);
    let d6 = make_descriptor("ruby", "solargraph", a6, e6);
    let a7: &[&str] = &[];
    let e7: &[&str] = &["lua"];
    assert(str_views(a7@) =~= Seq::<Seq<char>>::empty());
    assert(str_views(e7@) =~= seq!["lua"@]);
    let d7 = make_descriptor("lua", "lua-language-server", a7, e7);
    let a8: &[&str] = &["--stdio"];
    let e8: &[&str] = &["html", "htm"];
    assert(str_views(a8@) =~= seq!["--stdio"@]);
    assert(str_views(e8@) =~= seq!["html"@, "htm"@]);
    let d8 = make_descriptor("html", "vscode-html-language-server", a8, e8);
    let a9: &[&str] = &["--stdio"];
    let e9: &[&str] = &["css", "scss", "less", "sass"];
    assert(str_views(a9@) =~= seq!["--stdio"@]);
    assert(str_views(e9@) =~= seq!["css"@, "scss"@, "less"@, "sass"@]);
    let d9 = make_descriptor("css", "vscode-css-language-server", a9, e9);
    let a10: &[&str] = &["--stdio"];
    let e10: &[&str] = &["json", "jsonc"];
    assert(str_views(a10@) =~= seq!["--stdio"@]);
    assert(str_views(e10@) =~= seq!["json"@, "jsonc"@]);
    let d10 = make_descriptor("json", "vscode-json-language-server", a10, e10);
    let a11: &[&str] = &["start"];
    let e11: &[&str] = &["sh", "bash", "zsh"];
    assert(str_views(a11@) =~= seq!["start"@]);
    assert(str_views(e11@) =~= seq!["sh"@, "bash"@, "zsh"@]);
    let d11 = make_descriptor("bash", "bash-language-server", a11, e11);
    let a12: &[&str] = &["--stdio"];
    let e12: &[&str] = &["yaml", "yml"];
    assert(str_views(a12@) =~= seq!["--stdio"@]);
    assert(str_views(e12@) =~= seq!["yaml"@, "yml"@]);
    let d12 = make_descriptor("yaml", "yaml-language-server", a12, e12);
    let a13: &[&str] = &[];
    let e13: &[&str] = &["gd"];
    assert(str_views(a13@) =~= Seq::<Seq<char>>::empty());
    assert(str_views(e13@) =~= seq!["gd"@]);
    let d13 = make_descriptor("gdscript", "tcp://localhost:6008", a13, e13);
    let v: Vec<LspServerDescriptor> = vec![d0, d1, d2, d3, d4, d5, d6, d7, d8, d9, d10, d11, d12, d13];
    assert forall|i: int| 0 <= i < v@.len() implies describes(#[trigger] v@[i], known_servers()[i]) by {
        if i == 0 {
            assert(v@[0] == d0);
        } else if i == 1 {
            assert(v@[1] == d1);
        } else if i == 2 {
            assert(v@[2] == d2);
        } else if i == 3 {
            assert(v@[3] == d3);
        } else if i == 4 {
            assert(v@[4] == d4);
        } else if i == 5 {
            assert(v@[5] == d5);
        } else if i == 6 {
            assert(v@[6] == d6);
        } else if i == 7 {
            assert(v@[7] == d7);
        } else if i == 8 {
            assert(v@[8] == d8);
        } else if i == 9 {
            assert(v@[9] == d9);
        } else if i == 10 {
            assert(v@[10] == d10);
        } else if i == 11 {
            assert(v@[11] == d11);
        } else if i == 12 {
            assert(v@[12] == d12);
        } else if i == 13 {
            assert(v@[13] == d13);
        }
    }
    v
}

/// Index of the first server that handles an extension.
pub open spec fn server_index(servers: Seq<LspServerDescriptor>, ext: Seq<char>) -> Option<int>
    decreases servers.len(),
{
    if servers.len() == 0 {
        None
    } else if string_views(servers[0].extensions@).contains(ext) {
        Some(0)
    } else {
        match server_index(servers.drop_first(), ext) {
            Some(i) => Some(i + 1),
            None => None,
        }
    }
}

proof fn lemma_server_index_bound(servers: Seq<LspServerDescriptor>, ext: Seq<char>)
    ensures
        server_index(servers, ext) matches Some(i) ==> 0 <= i < servers.len(),
    decreases servers.len(),
{
    if servers.len() > 0 {
        lemma_server_index_bound(servers.drop_first(), ext);
    }
}

fn handles_extension(d: &LspServerDescriptor, ext: &str) -> (r: bool)
    ensures
        r == string_views(d.extensions@).contains(ext@),
{
    let mut i: usize = 0;
    while i < d.extensions.len()
        invariant
            i <= d.extensions.len(),
            forall|j: int| 0 <= j < i ==> d.extensions@[j]@ != ext@,
        decreases d.extensions.len() - i,
    {
        if str_eq(d.extensions[i].as_str(), ext) {
            assert(string_views(d.extensions@)[i as int] == ext@);
            return true;
        }
        i += 1;
    }
    assert forall|j: int| 0 <= j < string_views(d.extensions@).len() implies string_views(d.extensions@)[j] != ext@ by {
        assert(string_views(d.extensions@)[j] == d.extensions@[j]@);
    }
    false
}

/// The first server that handles files with extension `ext`.
pub fn find_server_for_extension<'a>(ext: &str, servers: &'a [LspServerDescriptor]) -> (r: Option<
    &'a LspServerDescriptor,
>)
    ensures
        match server_index(servers@, ext@) {
            Some(i) => r == Some(&servers@[i]),
            None => r is None,
        },
{
    let mut i: usize = 0;
    proof {
        assert(servers@.skip(0) =~= servers@);
    }
    while i < servers.len()
        invariant
            i <= servers.len(),
            server_index(servers@, ext@) == match server_index(servers@.skip(i as int), ext@) {
                Some(k) => Some(k + i),
                None => None::<int>,
            },
        decreases servers.len() - i,
    {
        let ghost rest = servers@.skip(i as int);
        assert(rest[0] == servers@[i as int]);
        assert(rest.drop_first() =~= servers@.skip(i + 1));
        if handles_extension(&servers[i], ext) {
            return Some(&servers[i]);
        }
        i += 1;
    }
    None
}

/// The first server that handles the file's extension; none for a path
/// without one. The path is given as its text.
pub fn find_server_for_file<'a>(path: &str, servers: &'a [LspServerDescriptor]) -> (r: Option<
    &'a LspServerDescriptor,
>)
    ensures
        match crate::lsp_parse::path_extension_text(path@) {
            Some(e) => match server_index(servers@, e) {
                Some(i) => r == Some(&servers@[i]),
                None => r is None,
            },
            None => r is None,
        },
{
    let ext = match crate::lsp_parse::extension_of(path) {
        Some(e) => e,
        None => return None,
    };
    find_server_for_extension(ext.as_str(), servers)
}

/// The platform, for choosing among install instructions.
#[derive(Debug, Clone, Copy, PartialEq, Eq, Structural)]
pub enum LinuxDistro {
    Debian,
    Ubuntu,
    Fedora,
    Arch,
    OpenSuse,
    Alpine,
    Void,
    NixOS,
    UnknownLinux,
    MacOS,
    Windows,
    Other,
}

/// The Linux distribution an `/etc/os-release` text names.
pub open spec fn distro_from(contents: Seq<char>) -> LinuxDistro {
    if contains_seq(contents, "Ubuntu"@) {
        LinuxDistro::Ubuntu
    } else if contains_seq(contents, "Debian"@) {
        LinuxDistro::Debian
    } else if contains_seq(contents, "Fedora"@) {
        LinuxDistro::Fedora
    } else if contains_seq(contents, "Arch"@) || contains_seq(contents, "archlinux"@) || contains_seq(
        contents,
        "Manjaro"@,
    ) || contains_seq(contents, "EndeavourOS"@) {
        LinuxDistro::Arch
    } else if contains_seq(contents, "openSUSE"@) || contains_seq(contents, "SUSE"@) {
        LinuxDistro::OpenSuse
    } else if contains_seq(contents, "Alpine"@) {
        LinuxDistro::Alpine
    } else if contains_seq(contents, "Void"@) {
        LinuxDistro::Void
    } else if contains_seq(contents, "NixOS"@) {
        LinuxDistro::NixOS
    } else {
        LinuxDistro::UnknownLinux
    }
}

/// Reads the distribution from the text of `/etc/os-release`.
pub fn distro_from_os_release(contents: &str) -> (r: LinuxDistro)
    ensures
        r == distro_from(contents@),
{
    let c = chars_of(contents);
    if contains_str(&c, "Ubuntu") {
        LinuxDistro::Ubuntu
    } else if contains_str(&c, "Debian") {
        LinuxDistro::Debian
    } else if contains_str(&c, "Fedora") {
        LinuxDistro::Fedora
    } else if contains_str(&c, "Arch") || contains_str(&c, "archlinux") || contains_str(&c, "Manjaro")
        || contains_str(&c, "EndeavourOS") {
        LinuxDistro::Arch
    } else if contains_str(&c, "openSUSE") || contains_str(&c, "SUSE") {
        LinuxDistro::OpenSuse
    } else if contains_str(&c, "Alpine") {
        LinuxDistro::Alpine
    } else if contains_str(&c, "Void") {
        LinuxDistro::Void
    } else if contains_str(&c, "NixOS") {
        LinuxDistro::NixOS
    } else {
        LinuxDistro::UnknownLinux
    }
}

/// The instruction label that suits a platform, when it has one.
pub open spec fn distro_label(d: LinuxDistro) -> Option<Seq<char>> {
    match d {
        LinuxDistro::Ubuntu | LinuxDistro::Debian => Some("Ubuntu/Debian"@),
        LinuxDistro::Fedora => Some("Fedora"@),
        LinuxDistro::Arch => Some("Arch"@),
        LinuxDistro::OpenSuse => Some("openSUSE"@),
        LinuxDistro::Alpine => Some("Alpine"@),
        LinuxDistro::Void => Some("Void"@),
        LinuxDistro::NixOS => Some("NixOS"@),
        LinuxDistro::MacOS => Some("macOS"@),
        _ => None,
    }
}

fn distro_label_str(d: LinuxDistro) -> (r: Option<&'static str>)
    ensures
        match r {
            Some(s) => distro_label(d) == Some(s@),
            None => distro_label(d) is None,
        },
{
    match d {
        LinuxDistro::Ubuntu | LinuxDistro::Debian => Some("Ubuntu/Debian"),
        LinuxDistro::Fedora => Some("Fedora"),
        LinuxDistro::Arch => Some("Arch"),
        LinuxDistro::OpenSuse => Some("openSUSE"),
        LinuxDistro::Alpine => Some("Alpine"),
        LinuxDistro::Void => Some("Void"),
        LinuxDistro::NixOS => Some("NixOS"),
        LinuxDistro::MacOS => Some("macOS"),
        _ => None,
    }
}

/// Index of the first instruction with `label`.
pub open spec fn label_index(v: Seq<(Seq<char>, Seq<char>)>, label: Seq<char>) -> Option<int>
    decreases v.len(),
{
    if v.len() == 0 {
        None
    } else if v[0].0 == label {
        Some(0)
    } else {
        match label_index(v.drop_first(), label) {
            Some(i) => Some(i + 1),
            None => None,
        }
    }
}

proof fn lemma_label_index_bound(v: Seq<(Seq<char>, Seq<char>)>, label: Seq<char>)
    ensures
        label_index(v, label) matches Some(i) ==> 0 <= i < v.len() && v[i].0 == label,
    decreases v.len(),
{
    if v.len() > 0 {
        lemma_label_index_bound(v.drop_first(), label);
    }
}

/// The instruction that suits a platform: the first with the platform's
/// label, else the first one; none when there are no instructions.
pub open spec fn best_index(v: Seq<(Seq<char>, Seq<char>)>, d: LinuxDistro) -> Option<int> {
    if v.len() == 0 {
        None
    } else {
        match distro_label(d) {
            Some(l) => match label_index(v, l) {
                Some(i) => Some(i),
                None => Some(0),
            },
            None => Some(0),
        }
    }
}

fn find_label(v: &Vec<InstallInstruction>, label: &str) -> (r: Option<usize>)
    ensures
        match r {
            Some(i) => label_index(instruction_views(v@), label@) == Some(i as int),
            None => label_index(instruction_views(v@), label@) is None,
        },
{
    let ghost iv = instruction_views(v@);
    let mut i: usize = 0;
    proof {
        assert(iv.skip(0) =~= iv);
    }
    while i < v.len()
        invariant
            i <= v.len(),
            iv == instruction_views(v@),
            label_index(iv, label@) == match label_index(iv.skip(i as int), label@) {
                Some(k) => Some(k + i),
                None => None::<int>,
            },
        decreases v.len() - i,
    {
        assert(iv.skip(i as int)[0] == iv[i as int]);
        assert(iv.skip(i as int).drop_first() =~= iv.skip(i + 1));
        if str_eq(v[i].label.as_str(), label) {
            return Some(i);
        }
        i += 1;
    }
    None
}

fn best_position(v: &Vec<InstallInstruction>, d: LinuxDistro) -> (r: Option<usize>)
    ensures
        match r {
            Some(i) => best_index(instruction_views(v@), d) == Some(i as int) && i < v@.len(),
            None => best_index(instruction_views(v@), d) is None,
        },
{
    if v.len() == 0 {
        return None;
    }
    match distro_label_str(d) {
        Some(l) => {
            proof {
                lemma_label_index_bound(instruction_views(v@), l@);
            }
            match find_label(v, l) {
                Some(i) => Some(i),
                None => Some(0),
            }
        },
        None => Some(0),
    }
}

fn copy_instruction(i: &InstallInstruction) -> (r: InstallInstruction)
    ensures
        r == *i,
{
    InstallInstruction { label: i.label.clone(), command: i.command.clone() }
}

fn copy_instructions(v: &Vec<InstallInstruction>) -> (r: Vec<InstallInstruction>)
    ensures
        r@ == v@,
{
    let mut r: Vec<InstallInstruction> = Vec::new();
    let mut i: usize = 0;
    while i < v.len()
        invariant
            i <= v.len(),
            r@ == v@.take(i as int),
        decreases v.len() - i,
    {
        r.push(copy_instruction(&v[i]));
        i += 1;
        assert(r@ =~= v@.take(i as int));
    }
    assert(v@.take(v.len() as int) =~= v@);
    r
}

/// The install instruction that suits a language on a platform.
pub fn best_install_instruction(language: &str, distro: LinuxDistro) -> (r: Option<InstallInstruction>)
    ensures
        match best_index(install_table(language@), distro) {
            Some(i) => r matches Some(x) && (x.label@, x.command@) == install_table(language@)[i],
            None => r is None,
        },
{
    let instructions = install_instructions_for(language);
    match best_position(&instructions, distro) {
        Some(i) => {
            assert(instruction_views(instructions@)[i as int] == (instructions@[i as int].label@, instructions@[i as int].command@));
            Some(copy_instruction(&instructions[i]))
        },
        None => None,
    }
}

/// What to do about a known server.
#[derive(Debug, Clone, PartialEq, Eq)]
pub enum LspInstallAction {
    /// The server is available.
    Installed,
    /// The server is not found; these are the suggested install commands.
    Missing { language: String, instructions: Vec<InstallInstruction> },
    /// The server binary is a rustup proxy for a component that is not installed.
    RustupProxyMissing { language: String, component: String },
}

/// What probing a known server's command found.
#[derive(Debug, Clone, Copy, PartialEq, Eq, Structural)]
pub struct CommandProbe {
    /// The command could be started.
    pub exists: bool,
    /// The command is a rustup proxy (`--version` reports an unknown binary).
    pub rustup_proxy: bool,
    /// `rustup run stable <command> --version` succeeds.
    pub component_works: bool,
}

/// Whether an entry of the known table is rust-analyzer behind a rustup
/// proxy.
pub open spec fn proxied(entry: (Seq<char>, Seq<char>, Seq<Seq<char>>, Seq<Seq<char>>), p: CommandProbe) -> bool {
    entry.1 == "rust-analyzer"@ && p.rustup_proxy
}

/// The action for one known server given what probing its command found.
pub open spec fn action_matches(a: LspInstallAction, entry: (Seq<char>, Seq<char>, Seq<Seq<char>>, Seq<Seq<char>>), p: CommandProbe) -> bool {
    if !p.exists {
        a matches LspInstallAction::Missing { language, instructions } && language@ == entry.0
            && instruction_views(instructions@) == install_table(entry.0)
    } else if proxied(entry, p) && !p.component_works {
        a matches LspInstallAction::RustupProxyMissing { language, component } && language@ == entry.0
            && component@ == "rust-analyzer"@
    } else {
        a is Installed
    }
}

fn server_action(language: &str, command: &str, p: CommandProbe) -> (r: LspInstallAction)
    ensures
        action_matches(r, (language@, command@, seq![], seq![]), p),
{
    if !p.exists {
        return LspInstallAction::Missing {
            language: owned(language),
            instructions: install_instructions_for(language),
        };
    }
    if str_eq(command, "rust-analyzer") && p.rustup_proxy {
        if p.component_works {
            LspInstallAction::Installed
        } else {
            LspInstallAction::RustupProxyMissing {
                language: owned(language),
                component: owned("rust-analyzer"),
            }
        }
    } else {
        LspInstallAction::Installed
    }
}

/// One action per known server, in table order, from the probe of each
/// server's command.
pub fn check_lsp_availability(probes: &[CommandProbe]) -> (r: Vec<LspInstallAction>)
    requires
        probes@.len() == known_servers().len(),
    ensures
        r@.len() == known_servers().len(),
        forall|i: int| 0 <= i < r@.len() ==> action_matches(#[trigger] r@[i], known_servers()[i], probes@[i]),
{
    let servers = known_lsp_servers();
    let mut actions: Vec<LspInstallAction> = Vec::new();
    let mut i: usize = 0;
    while i < servers.len()
        invariant
            i <= servers.len(),
            servers@.len() == known_servers().len(),
            probes@.len() == known_servers().len(),
            forall|k: int| 0 <= k < servers@.len() ==> describes(#[trigger] servers@[k], known_servers()[k]),
            actions@.len() == i,
            forall|k: int| 0 <= k < i ==> action_matches(#[trigger] actions@[k], known_servers()[k], probes@[k]),
        decreases servers.len() - i,
    {
        assert(describes(servers@[i as int], known_servers()[i as int]));
        let a = server_action(servers[i].language.as_str(), servers[i].command.as_str(), probes[i]);
        actions.push(a);
        i += 1;
    }
    actions
}

/// The descriptor a server is used through once probed: unchanged, or
/// for rust-analyzer behind a working rustup proxy, run through rustup.
pub open spec fn discovered(d: LspServerDescriptor, entry: (Seq<char>, Seq<char>, Seq<Seq<char>>, Seq<Seq<char>>), p: CommandProbe) -> bool {
    &&& d.language@ == entry.0
    &&& string_views(d.extensions@) == entry.3
    &&& instruction_views(d.install_hint@) == install_table(entry.0)
    &&& if proxied(entry, p) {
        d.command@ == "rustup"@ && string_views(d.args@) == seq!["run"@, "stable"@, "rust-analyzer"@]
    } else {
        d.command@ == entry.1 && string_views(d.args@) == entry.2
    }
}

/// The known servers that are usable: those whose command exists, except
/// a rustup proxy whose component does not work.
pub open spec fn usable(entry: (Seq<char>, Seq<char>, Seq<Seq<char>>, Seq<Seq<char>>), p: CommandProbe) -> bool {
    p.exists && !(proxied(entry, p) && !p.component_works)
}

/// Indices of the usable known servers among the first `n`, in order.
pub open spec fn usable_indices(probes: Seq<CommandProbe>, n: int) -> Seq<int>
    decreases n,
{
    if n <= 0 {
        seq![]
    } else if usable(known_servers()[n - 1], probes[n - 1]) {
        usable_indices(probes, n - 1).push(n - 1)
    } else {
        usable_indices(probes, n - 1)
    }
}

/// The servers installed here, from the probe of each known server's
/// command.
pub fn discover_available_servers(probes: &[CommandProbe]) -> (r: Vec<LspServerDescriptor>)
    requires
        probes@.len() == known_servers().len(),
    ensures
        r@.len() == usable_indices(probes@, known_servers().len() as int).len(),
        forall|j: int|
            0 <= j < r@.len() ==> discovered(
                #[trigger] r@[j],
                known_servers()[usable_indices(probes@, known_servers().len() as int)[j]],
                probes@[usable_indices(probes@, known_servers().len() as int)[j]],
            ),
{
    let servers = known_lsp_servers();
    let mut found: Vec<LspServerDescriptor> = Vec::new();
    let mut i: usize = 0;
    while i < servers.len()
        invariant
            i <= servers.len(),
            servers@.len() == known_servers().len(),
            probes@.len() == known_servers().len(),
            forall|k: int| 0 <= k < servers@.len() ==> describes(#[trigger] servers@[k], known_servers()[k]),
            found@.len() == usable_indices(probes@, i as int).len(),
            forall|j: int|
                0 <= j < found@.len() ==> discovered(
                    #[trigger] found@[j],
                    known_servers()[usable_indices(probes@, i as int)[j]],
                    probes@[usable_indices(probes@, i as int)[j]],
                ),
        decreases servers.len() - i,
    {
        assert(describes(servers@[i as int], known_servers()[i as int]));
        let p = probes[i];
        let d = &servers[i];
        let proxy = str_eq(d.command.as_str(), "rust-analyzer") && p.rustup_proxy;
        let ghost before = found@;
        if p.exists && !(proxy && !p.component_works) {
            let server = if proxy {
                let mut args: Vec<String> = Vec::new();
                args.push(owned("run"));
                args.push(owned("stable"));
                args.push(owned("rust-analyzer"));
                assert(string_views(args@) =~= seq!["run"@, "stable"@, "rust-analyzer"@]);
                LspServerDescriptor {
                    language: d.language.clone(),
                    command: owned("rustup"),
                    args,
                    extensions: clone_strings(&d.extensions),
                    install_hint: copy_instructions(&d.install_hint),
                }
            } else {
                LspServerDescriptor {
                    language: d.language.clone(),
                    command: d.command.clone(),
                    args: clone_strings(&d.args),
                    extensions: clone_strings(&d.extensions),
                    install_hint: copy_instructions(&d.install_hint),
                }
            };
            found.push(server);
        }
        i += 1;
    }
    found
}

/// `    -> command`, the line for the suggested install command.
pub open spec fn arrow_line(command: Seq<char>) -> Seq<char> {
    "    "@ + seq![RIGHT_ARROW] + " "@ + command
}

/// `    * command (label)`, the line for another install command.
pub open spec fn bullet_line(i: (Seq<char>, Seq<char>)) -> Seq<char> {
    "    "@ + seq![BULLET] + " "@ + i.1 + " ("@ + i.0 + ")"@
}

/// Bullet lines for the instructions that differ from the suggested one.
pub open spec fn other_lines(v: Seq<(Seq<char>, Seq<char>)>, best: Option<(Seq<char>, Seq<char>)>) -> Seq<Seq<char>>
    decreases v.len(),
{
    if v.len() == 0 {
        seq![]
    } else if best == Some(v.last()) {
        other_lines(v.drop_last(), best)
    } else {
        other_lines(v.drop_last(), best).push(bullet_line(v.last()))
    }
}

/// The prompt lines for one action on a platform.
pub open spec fn action_lines(a: LspInstallAction, d: LinuxDistro) -> Seq<Seq<char>> {
    match a {
        LspInstallAction::Installed => seq![],
        LspInstallAction::Missing { language, instructions } => {
            let v = instruction_views(instructions@);
            let best = match best_index(v, d) {
                Some(b) => Some(v[b]),
                None => None,
            };
            seq!["  "@ + language@ + ": not found"@] + match best {
                Some(b) => seq![arrow_line(b.1)],
                None => seq![],
            } + other_lines(v, best)
        },
        LspInstallAction::RustupProxyMissing { language, component } => seq![
            "  "@ + language@ + ": rustup proxy found but component not installed"@,
            arrow_line("rustup component add "@ + component@),
        ],
    }
}

/// The prompt lines for all actions, in order.
pub open spec fn prompt_lines(actions: Seq<LspInstallAction>, d: LinuxDistro) -> Seq<Seq<char>>
    decreases actions.len(),
{
    if actions.len() == 0 {
        seq![]
    } else {
        prompt_lines(actions.drop_last(), d) + action_lines(actions.last(), d)
    }
}

/// The first line of an install prompt.
pub open spec fn prompt_header() -> Seq<char> {
    "LSP servers missing "@ + seq![EM_DASH] + " install for code intelligence:\n"@
}

/// The install prompt: empty when nothing is missing, else the header and
/// the lines joined by newlines.
pub open spec fn install_prompt(actions: Seq<LspInstallAction>, d: LinuxDistro) -> Seq<char> {
    let lines = prompt_lines(actions, d);
    if lines.len() == 0 {
        seq![]
    } else {
        prompt_header() + join(lines, "\n"@)
    }
}

fn line_string(parts_a: &str, middle: &[char], parts_b: &str) -> (r: String)
    ensures
        r@ == parts_a@ + middle@ + parts_b@,
{
    let mut v: Vec<char> = Vec::new();
    push_str(&mut v, parts_a);
    push_all(&mut v, middle);
    push_str(&mut v, parts_b);
    string_from_chars(&v)
}

fn arrow_string(command: &[char]) -> (r: String)
    ensures
        r@ == arrow_line(command@),
{
    let mut v: Vec<char> = Vec::new();
    push_str(&mut v, "    ");
    v.push(RIGHT_ARROW);
    push_str(&mut v, " ");
    push_all(&mut v, command);
    assert(v@ =~= arrow_line(command@));
    string_from_chars(&v)
}

fn bullet_string(i: &InstallInstruction) -> (r: String)
    ensures
        r@ == bullet_line((i.label@, i.command@)),
{
    let mut v: Vec<char> = Vec::new();
    push_str(&mut v, "    ");
    v.push(BULLET);
    push_str(&mut v, " ");
    push_str(&mut v, i.command.as_str());
    push_str(&mut v, " (");
    push_str(&mut v, i.label.as_str());
    push_str(&mut v, ")");
    assert(v@ =~= bullet_line((i.label@, i.command@)));
    string_from_chars(&v)
}

fn push_line(lines: &mut Vec<String>, line: String)
    ensures
        string_views(final(lines)@) == string_views(old(lines)@).push(line@),
{
    let ghost before = string_views(lines@);
    lines.push(line);
    assert(string_views(lines@) =~= before.push(line@));
}

fn append_action_lines(lines: &mut Vec<String>, action: &LspInstallAction, distro: LinuxDistro)
    ensures
        string_views(final(lines)@) == string_views(old(lines)@) + action_lines(*action, distro),
{
    let ghost start = string_views(lines@);
    match action {
        LspInstallAction::Installed => {
            assert(string_views(lines@) =~= start + action_lines(*action, distro));
        },
        LspInstallAction::Missing { language, instructions } => {
            let ghost v = instruction_views(instructions@);
            push_line(lines, line_string("  ", &chars_of(language.as_str()), ": not found"));
            let best = best_position(instructions, distro);
            let ghost bv = match best {
                Some(b) => Some(v[b as int]),
                None => None::<(Seq<char>, Seq<char>)>,
            };
            match best {
                Some(b) => {
                    assert(v[b as int] == (instructions@[b as int].label@, instructions@[b as int].command@));
                    push_line(lines, arrow_string(&chars_of(instructions[b].command.as_str())));
                },
                None => {},
            }
            let ghost mid = string_views(lines@);
            let mut j: usize = 0;
            assert(v.take(0) =~= Seq::<(Seq<char>, Seq<char>)>::empty());
            assert(mid =~= mid + other_lines(v.take(0), bv));
            while j < instructions.len()
                invariant
                    j <= instructions.len(),
                    v == instruction_views(instructions@),
                    string_views(lines@) == mid + other_lines(v.take(j as int), bv),
                    best is Some ==> best.unwrap() < instructions@.len(),
                    bv == match best {
                        Some(b) => Some(v[b as int]),
                        None => None::<(Seq<char>, Seq<char>)>,
                    },
                decreases instructions.len() - j,
            {
                let ghost prefix = v.take(j + 1);
                assert(prefix.drop_last() =~= v.take(j as int));
                assert(prefix.last() == (instructions@[j as int].label@, instructions@[j as int].command@));
                let same = match best {
                    Some(b) => chars_eq(&chars_of(instructions[j].label.as_str()), &chars_of(instructions[b].label.as_str()))
                        && chars_eq(&chars_of(instructions[j].command.as_str()), &chars_of(instructions[b].command.as_str())),
                    None => false,
                };
                if !same {
                    push_line(lines, bullet_string(&instructions[j]));
                }
                assert(string_views(lines@) =~= mid + other_lines(prefix, bv));
                j += 1;
            }
            assert(v.take(instructions.len() as int) =~= v);
            assert(string_views(lines@) =~= start + action_lines(*action, distro));
        },
        LspInstallAction::RustupProxyMissing { language, component } => {
            push_line(
                lines,
                line_string("  ", &chars_of(language.as_str()), ": rustup proxy found but component not installed"),
            );
            let mut c: Vec<char> = Vec::new();
            push_str(&mut c, "rustup component add ");
            push_str(&mut c, component.as_str());
            push_line(lines, arrow_string(&c));
            assert(string_views(lines@) =~= start + action_lines(*action, distro));
        },
    }
}

/// A human-readable install prompt for the missing servers, with the
/// command suited to the platform first.
pub fn format_install_prompt(actions: &[LspInstallAction], distro: LinuxDistro) -> (r: String)
    ensures
        r@ == install_prompt(actions@, distro),
{
    let mut lines: Vec<String> = Vec::new();
    let mut i: usize = 0;
    while i < actions.len()
        invariant
            i <= actions.len(),
            string_views(lines@) == prompt_lines(actions@.take(i as int), distro),
        decreases actions.len() - i,
    {
        assert(actions@.take(i + 1).drop_last() =~= actions@.take(i as int));
        append_action_lines(&mut lines, &actions[i], distro);
        i += 1;
    }
    assert(actions@.take(actions.len() as int) =~= actions@);
    if lines.len() == 0 {
        return String::new();
    }
    let body = join_strings(&lines, "\n");
    let mut out: Vec<char> = Vec::new();
    push_str(&mut out, "LSP servers missing ");
    out.push(EM_DASH);
    push_str(&mut out, " install for code intelligence:\n");
    push_all(&mut out, &body);
    assert(out@ =~= install_prompt(actions@, distro));
    string_from_chars(&out)
}

/// Every known server has install instructions, so on every platform one
/// of them is suggested.
pub proof fn law_known_servers_have_instructions(i: int, d: LinuxDistro)
    requires
        0 <= i < known_servers().len(),
    ensures
        install_table(known_servers()[i].0).len() > 0,
        best_index(install_table(known_servers()[i].0), d) is Some,
{
    let lang = known_servers()[i].0;
    assert(install_table(lang).len() > 0);
}

} // verus!
