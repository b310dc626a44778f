//! Shell completion: the supported shells, the setup instructions for
//! each, and the content hash that tells when completion scripts must be
//! generated again.

use vstd::prelude::*;
use crate::text::{chars_of, chars_of_string, contains_sub, push_all, string_of, trim};
use crate::type_validator::lowercase;
use sha2::Digest;
use vstd::string::StringExecFns;

verus! {

/// Shell types supported for completion generation.
#[derive(Debug, Clone, Copy)]
pub enum Shell {
    Bash,
    Zsh,
    Fish,
    PowerShell,
    Elvish,
}

/// The shell named by a lower-case name.
pub open spec fn shell_named(l: Seq<char>) -> Option<Shell> {
    if l == "bash"@ {
        Some(Shell::Bash)
    } else if l == "zsh"@ {
        Some(Shell::Zsh)
    } else if l == "fish"@ {
        Some(Shell::Fish)
    } else if l == "powershell"@ || l == "ps1"@ {
        Some(Shell::PowerShell)
    } else if l == "elvish"@ {
        Some(Shell::Elvish)
    } else {
        None
    }
}

/// The name of a shell.
pub open spec fn shell_name(s: Shell) -> Seq<char> {
    match s {
        Shell::Bash => "bash"@,
        Shell::Zsh => "zsh"@,
        Shell::Fish => "fish"@,
        Shell::PowerShell => "powershell"@,
        Shell::Elvish => "elvish"@,
    }
}

impl Shell {
    /// Parses a shell name (without regard to case); `ps1` names PowerShell.
    pub fn from_str(s: &str) -> (r: Option<Shell>)
        ensures
            r == shell_named(lowercase(s@)),
            crate::type_validator::ascii_text(s@) ==> r == shell_named(
                crate::type_validator::ascii_lowercase(s@),
            ),
            crate::type_validator::ascii_lower(s@) ==> r == shell_named(s@),
    {
        let lower = crate::type_validator::to_lowercase(s);
        Self::from_lowered(lower.as_str())
    }

    /// The shell named by a lower-case name (see `shell_named`).
    pub fn from_lowered(lowered: &str) -> (r: Option<Shell>)
        ensures
            r == shell_named(lowered@),
    {
        let l = chars_of(lowered);
        if crate::text::eq(&l, &chars_of("bash")) {
            Some(Shell::Bash)
        } else if crate::text::eq(&l, &chars_of("zsh")) {
            Some(Shell::Zsh)
        } else if crate::text::eq(&l, &chars_of("fish")) {
            Some(Shell::Fish)
        } else if crate::text::eq(&l, &chars_of("powershell")) || crate::text::eq(
            &l,
            &chars_of("ps1"),
        ) {
            Some(Shell::PowerShell)
        } else if crate::text::eq(&l, &chars_of("elvish")) {
            Some(Shell::Elvish)
        } else {
            None
        }
    }

    /// The shell's name.
    pub fn as_str(&self) -> (s: &'static str)
        ensures
            s@ == shell_name(*self),
    {
        match self {
            Shell::Bash => "bash",
            Shell::Zsh => "zsh",
            Shell::Fish => "fish",
            Shell::PowerShell => "powershell",
            Shell::Elvish => "elvish",
        }
    }
}

/// Law (name round trip): a shell's name is written in ASCII lower case,
/// and it names that shell again, so `Shell::from_str(s.as_str())` gives
/// `s` back.
pub proof fn lemma_shell_name_round_trip(s: Shell)
    ensures
        crate::type_validator::ascii_lower(shell_name(s)),
        shell_named(shell_name(s)) == Some(s),
{
    reveal_strlit("bash");
    reveal_strlit("zsh");
    reveal_strlit("fish");
    reveal_strlit("powershell");
    reveal_strlit("ps1");
    reveal_strlit("elvish");
    assert("fish"@[0] != "bash"@[0]);
    assert("elvish"@[0] != "ps1"@[0]);
    assert("powershell"@.len() != "bash"@.len() && "powershell"@.len() != "zsh"@.len());
    assert("powershell"@.len() != "fish"@.len());
    assert("elvish"@.len() != "bash"@.len() && "elvish"@.len() != "zsh"@.len());
    assert("elvish"@.len() != "fish"@.len() && "elvish"@.len() != "powershell"@.len());
}

/// The instructions for setting up completion with the script at `path`.
pub open spec fn setup_spec(shell: Shell, path: Seq<char>) -> Seq<char> {
    match shell {
        Shell::Bash => "Add to your ~/.bashrc:\n  source "@ + path + "\nThen reload: source ~/.bashrc"@,
        Shell::Zsh => "Add to your ~/.zshrc:\n  source "@ + path + "\nThen reload: source ~/.zshrc"@,
        Shell::Fish => "Copy to fish completions:\n  cp "@ + path
            + " ~/.config/fish/completions/nest.fish"@,
        Shell::PowerShell => "Run in PowerShell:\n  . "@ + path + "\nOr add to your PowerShell profile"@,
        Shell::Elvish => "Add to your ~/.elvish/rc.elv:\n  eval (slurp < "@ + path + ")"@,
    }
}

/// The SHA-256 digest of a text's UTF-8 bytes, in lower-case hexadecimal.
pub uninterp spec fn sha256_hex(s: Seq<char>) -> Seq<char>;

/// `sha2::Sha256` over the UTF-8 bytes of `s`, formatted as lower-case hex.
#[verifier::external_body]
fn sha256_hex_of(s: &str) -> (r: String)
    ensures
        r@ == sha256_hex(s@),
{
    let mut hasher = <sha2::Sha256 as Digest>::new();
    hasher.update(s.as_bytes());
    format!("{:x}", hasher.finalize())
}

/// Manages completion script generation and caching.
pub struct CompletionManager {
    /// The directory that holds the completion scripts and hashes.
    pub cache_dir: String,
}

impl CompletionManager {
    /// The content hash of a nestfile (SHA-256, hexadecimal).
    pub fn calculate_content_hash(content: &str) -> (r: String)
        ensures
            r@ == sha256_hex(content@),
    {
        sha256_hex_of(content)
    }

    /// Whether completion scripts must be generated again: there is no
    /// stored hash, or it differs (ignoring surrounding whitespace) from the
    /// current one.
    pub fn needs_regeneration_for(current_hash: &str, stored_hash: Option<&str>) -> (b: bool)
        ensures
            b == match stored_hash {
                Some(h) => trim(current_hash@) != trim(h@),
                None => true,
            },
    {
        match stored_hash {
            Some(h) => {
                let a = crate::text::trimmed(current_hash);
                let b = crate::text::trimmed(h);
                !crate::text::eq(&a, &b)
            },
            None => true,
        }
    }

    /// Instructions for setting up completion in the user's shell, for the
    /// completion script at `script_path`.
    pub fn get_setup_instructions(shell: Shell, script_path: &str) -> (s: String)
        ensures
            s@ == setup_spec(shell, script_path@),
    {
        let p = chars_of(script_path);
        let (a, b) = match shell {
            Shell::Bash => ("Add to your ~/.bashrc:\n  source ", "\nThen reload: source ~/.bashrc"),
            Shell::Zsh => ("Add to your ~/.zshrc:\n  source ", "\nThen reload: source ~/.zshrc"),
            Shell::Fish => (
                "Copy to fish completions:\n  cp ",
                " ~/.config/fish/completions/nest.fish",
            ),
            Shell::PowerShell => ("Run in PowerShell:\n  . ", "\nOr add to your PowerShell profile"),
            Shell::Elvish => ("Add to your ~/.elvish/rc.elv:\n  eval (slurp < ", ")"),
        };
        let mut o = chars_of(a);
        push_all(&mut o, &p);
        push_all(&mut o, &chars_of(b));
        string_of(&o)
    }
}

/// The shell that a shell program's file name (as `$SHELL` ends with)
/// names: the lower-cased name holds `zsh`, `bash`, `fish` or `elvish`
/// (checked in that order).
pub open spec fn shell_from_name_spec(name: Seq<char>) -> Option<Shell> {
    let l = crate::type_validator::lowercase(name);
    if contains_sub(l, "zsh"@) {
        Some(Shell::Zsh)
    } else if contains_sub(l, "bash"@) {
        Some(Shell::Bash)
    } else if contains_sub(l, "fish"@) {
        Some(Shell::Fish)
    } else if contains_sub(l, "elvish"@) {
        Some(Shell::Elvish)
    } else {
        None
    }
}

/// Whether a shell configuration with content `content` already sets up
/// completion with the script at `path` (for fish, whose completion is a
/// file of its own, the configuration existing is enough).
pub open spec fn installed_spec(shell: Shell, content: Seq<char>, path: Seq<char>) -> bool {
    match shell {
        Shell::Bash | Shell::Zsh => contains_sub(content, path) || contains_sub(content, "nest/completions"@)
            || contains_sub(content, "Nest CLI completion"@),
        Shell::Fish => true,
        Shell::PowerShell => contains_sub(content, "nest"@) && contains_sub(content, "completion"@),
        Shell::Elvish => contains_sub(content, "nest"@) && (contains_sub(content, "completion"@)
            || contains_sub(content, "eval"@)),
    }
}

/// The configuration content after adding the completion setup for the
/// script at `path` (none for fish, whose script is copied instead): the
/// content ended by a newline (where it is not empty), a marker comment,
/// and the lines that load the script.
pub open spec fn config_with_completion(shell: Shell, content: Seq<char>, path: Seq<char>) -> Option<Seq<char>> {
    let base = if content.len() > 0 && content.last() != '\n' {
        content.push('\n')
    } else {
        content
    };
    let head = base + "\n# Nest CLI completion (auto-generated)\n"@;
    match shell {
        Shell::Bash | Shell::Zsh => Some(head + "if [ -f "@ + path + " ]; then\n"@ + "    source "@ + path
            + "\nfi\n"@),
        Shell::Fish => None,
        Shell::PowerShell => Some(head + ". "@ + path + "\n"@),
        Shell::Elvish => Some(head + "eval (slurp < "@ + path + ")\n"@),
    }
}

impl CompletionManager {
    /// The shell that a shell program's file name names (see
    /// `shell_from_name_spec`).
    pub fn shell_from_name(name: &str) -> (r: Option<Shell>)
        ensures
            r == shell_from_name_spec(name@),
    {
        let lower = crate::type_validator::to_lowercase(name);
        let l = chars_of_string(&lower);
        if crate::text::contains(&l, &chars_of("zsh")) {
            Some(Shell::Zsh)
        } else if crate::text::contains(&l, &chars_of("bash")) {
            Some(Shell::Bash)
        } else if crate::text::contains(&l, &chars_of("fish")) {
            Some(Shell::Fish)
        } else if crate::text::contains(&l, &chars_of("elvish")) {
            Some(Shell::Elvish)
        } else {
            None
        }
    }

    /// Whether a shell configuration already sets up completion (see
    /// `installed_spec`).
    pub fn completion_installed_in(shell: Shell, content: &str, script_path: &str) -> (b: bool)
        ensures
            b == installed_spec(shell, content@, script_path@),
    {
        let c = chars_of(content);
        match shell {
            Shell::Bash | Shell::Zsh => crate::text::contains(&c, &chars_of(script_path)) || crate::text::contains(
                &c,
                &chars_of("nest/completions"),
            ) || crate::text::contains(&c, &chars_of("Nest CLI completion")),
            Shell::Fish => true,
            Shell::PowerShell => crate::text::contains(&c, &chars_of("nest")) && crate::text::contains(
                &c,
                &chars_of("completion"),
            ),
            Shell::Elvish => crate::text::contains(&c, &chars_of("nest")) && (crate::text::contains(
                &c,
                &chars_of("completion"),
            ) || crate::text::contains(&c, &chars_of("eval"))),
        }
    }

    /// The configuration content with the completion setup added (see
    /// `config_with_completion`).
    pub fn config_with_completion(shell: Shell, content: &str, script_path: &str) -> (r: Option<String>)
        ensures
            crate::ast::opt_view(r) == config_with_completion(shell, content@, script_path@),
    {
        let mut c = chars_of(content);
        if c.len() > 0 && c[c.len() - 1] != '\n' {
            c.push('\n');
        }
        push_all(&mut c, &chars_of("\n# Nest CLI completion (auto-generated)\n"));
        let p = chars_of(script_path);
        match shell {
            Shell::Bash | Shell::Zsh => {
                push_all(&mut c, &chars_of("if [ -f "));
                push_all(&mut c, &p);
                push_all(&mut c, &chars_of(" ]; then\n"));
                push_all(&mut c, &chars_of("    source "));
                push_all(&mut c, &p);
                push_all(&mut c, &chars_of("\nfi\n"));
                Some(string_of(&c))
            },
            Shell::Fish => None,
            Shell::PowerShell => {
                push_all(&mut c, &chars_of(". "));
                push_all(&mut c, &p);
                push_all(&mut c, &chars_of("\n"));
                Some(string_of(&c))
            },
            Shell::Elvish => {
                push_all(&mut c, &chars_of("eval (slurp < "));
                push_all(&mut c, &p);
                push_all(&mut c, &chars_of(")\n"));
                Some(string_of(&c))
            },
        }
    }
}

/// The file in which a shell's completion is set up.
#[derive(Debug)]
pub enum ConfigFile {
    /// A path under the home directory.
    InHome(String),
    /// A path given outright.
    At(String),
}

/// The model of a `ConfigFile`.
pub enum ConfigFileV {
    InHome(Seq<char>),
    At(Seq<char>),
}

impl View for ConfigFile {
    type V = ConfigFileV;

    open spec fn view(&self) -> ConfigFileV {
        match self {
            ConfigFile::InHome(s) => ConfigFileV::InHome(s@),
            ConfigFile::At(s) => ConfigFileV::At(s@),
        }
    }
}

/// The configuration file of a shell, from what the host tells: whether a
/// home directory is known (`HOME`, else `USERPROFILE`), whether `HOME`
/// itself is set, whether this is Windows, PowerShell's `PROFILE`, and
/// whether `~/.bashrc` and `~/.bash_profile` exist. Nothing without a home
/// directory. Bash uses `~/.bashrc`, or `~/.bash_profile` when only that
/// one exists; PowerShell on Windows uses `PROFILE` (nothing when it is
/// unset), elsewhere its profile under `HOME` (nothing when `HOME` is unset).
pub open spec fn config_file_spec(
    shell: Shell,
    has_home: bool,
    has_home_var: bool,
    windows: bool,
    profile: Option<Seq<char>>,
    bashrc_exists: bool,
    bash_profile_exists: bool,
) -> Option<ConfigFileV> {
    if !has_home {
        None
    } else {
        match shell {
            Shell::Bash => if !bashrc_exists && bash_profile_exists {
                Some(ConfigFileV::InHome(".bash_profile"@))
            } else {
                Some(ConfigFileV::InHome(".bashrc"@))
            },
            Shell::Zsh => Some(ConfigFileV::InHome(".zshrc"@)),
            Shell::Fish => Some(ConfigFileV::InHome(".config/fish/completions/nest.fish"@)),
            Shell::PowerShell => if windows {
                match profile {
                    Some(p) => Some(ConfigFileV::At(p)),
                    None => None,
                }
            } else if has_home_var {
                Some(ConfigFileV::InHome(".config/powershell/Microsoft.PowerShell_profile.ps1"@))
            } else {
                None
            },
            Shell::Elvish => Some(ConfigFileV::InHome(".elvish/rc.elv"@)),
        }
    }
}

/// The configuration file of a shell (see `config_file_spec`).
pub fn shell_config_file(
    shell: Shell,
    has_home: bool,
    has_home_var: bool,
    windows: bool,
    profile: Option<String>,
    bashrc_exists: bool,
    bash_profile_exists: bool,
) -> (r: Option<ConfigFile>)
    ensures
        match r {
            Some(f) => config_file_spec(
                shell,
                has_home,
                has_home_var,
                windows,
                crate::ast::opt_view(profile),
                bashrc_exists,
                bash_profile_exists,
            ) == Some(f@),
            None => config_file_spec(
                shell,
                has_home,
                has_home_var,
                windows,
                crate::ast::opt_view(profile),
                bashrc_exists,
                bash_profile_exists,
            ) is None,
        },
{
    if !has_home {
        return None;
    }
    match shell {
        Shell::Bash => if !bashrc_exists && bash_profile_exists {
            Some(ConfigFile::InHome(String::from_str(".bash_profile")))
        } else {
            Some(ConfigFile::InHome(String::from_str(".bashrc")))
        },
        Shell::Zsh => Some(ConfigFile::InHome(String::from_str(".zshrc"))),
        Shell::Fish => Some(ConfigFile::InHome(String::from_str(".config/fish/completions/nest.fish"))),
        Shell::PowerShell => if windows {
            match profile {
                Some(p) => Some(ConfigFile::At(p)),
                None => None,
            }
        } else if has_home_var {
            Some(ConfigFile::InHome(String::from_str(".config/powershell/Microsoft.PowerShell_profile.ps1")))
        } else {
            None
        },
        Shell::Elvish => Some(ConfigFile::InHome(String::from_str(".elvish/rc.elv"))),
    }
}

} // verus!

