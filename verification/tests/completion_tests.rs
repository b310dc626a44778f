use nest::completion::{shell_config_file, CompletionManager, ConfigFile, Shell};

#[test]
fn shells_by_program_name() {
    assert!(matches!(CompletionManager::shell_from_name("zsh"), Some(Shell::Zsh)));
    assert!(matches!(CompletionManager::shell_from_name("BASH"), Some(Shell::Bash)));
    assert!(matches!(CompletionManager::shell_from_name("fish"), Some(Shell::Fish)));
    assert!(matches!(CompletionManager::shell_from_name("elvish"), Some(Shell::Elvish)));
    assert!(CompletionManager::shell_from_name("tcsh").is_none());
}

#[test]
fn installed_completion_is_recognised() {
    let cfg = "export A=1\n# Nest CLI completion (auto-generated)\n";
    assert!(CompletionManager::completion_installed_in(Shell::Bash, cfg, "/c/nest.bash"));
    assert!(!CompletionManager::completion_installed_in(Shell::Zsh, "export A=1\n", "/c/nest.zsh"));
    assert!(CompletionManager::completion_installed_in(Shell::Zsh, "source /c/nest.zsh\n", "/c/nest.zsh"));
    assert!(CompletionManager::completion_installed_in(Shell::Fish, "", "/c/nest.fish"));
    assert!(CompletionManager::completion_installed_in(Shell::PowerShell, ". nest completion", "/p"));
    assert!(!CompletionManager::completion_installed_in(Shell::PowerShell, "nest", "/p"));
    assert!(CompletionManager::completion_installed_in(Shell::Elvish, "eval nest", "/p"));
}

#[test]
fn completion_setup_is_appended_to_the_configuration() {
    assert_eq!(
        CompletionManager::config_with_completion(Shell::Bash, "alias ll=ls", "/c/nest.bash"),
        Some(
            "alias ll=ls\n\n# Nest CLI completion (auto-generated)\nif [ -f /c/nest.bash ]; then\n    source /c/nest.bash\nfi\n"
                .to_string()
        )
    );
    assert_eq!(
        CompletionManager::config_with_completion(Shell::PowerShell, "", "/p.ps1"),
        Some("\n# Nest CLI completion (auto-generated)\n. /p.ps1\n".to_string())
    );
    assert_eq!(
        CompletionManager::config_with_completion(Shell::Elvish, "x\n", "/e"),
        Some("x\n\n# Nest CLI completion (auto-generated)\neval (slurp < /e)\n".to_string())
    );
    assert_eq!(CompletionManager::config_with_completion(Shell::Fish, "x", "/f"), None);
}

#[test]
fn shell_names_round_trip() {
    for s in [Shell::Bash, Shell::Zsh, Shell::Fish, Shell::PowerShell, Shell::Elvish] {
        let back = Shell::from_str(s.as_str()).expect("named");
        assert_eq!(back.as_str(), s.as_str());
    }
    assert!(matches!(Shell::from_str("PS1"), Some(Shell::PowerShell)));
}

#[test]
fn shell_names_ignore_ascii_case() {
    assert!(matches!(Shell::from_str("ZSH"), Some(Shell::Zsh)));
    assert!(matches!(Shell::from_lowered("elvish"), Some(Shell::Elvish)));
    assert!(Shell::from_lowered("ZSH").is_none());
}

#[test]
fn the_shell_config_file_follows_the_host() {
    let rel = |r: Option<ConfigFile>| match r {
        Some(ConfigFile::InHome(s)) => Some(format!("~/{}", s)),
        Some(ConfigFile::At(s)) => Some(s),
        None => None,
    };
    assert_eq!(rel(shell_config_file(Shell::Bash, true, true, false, None, true, true)), Some("~/.bashrc".to_string()));
    assert_eq!(rel(shell_config_file(Shell::Bash, true, true, false, None, false, true)), Some("~/.bash_profile".to_string()));
    assert_eq!(rel(shell_config_file(Shell::Bash, true, true, false, None, false, false)), Some("~/.bashrc".to_string()));
    assert_eq!(rel(shell_config_file(Shell::Zsh, false, false, false, None, false, false)), None);
    assert_eq!(rel(shell_config_file(Shell::PowerShell, true, false, true, None, false, false)), None);
    assert_eq!(
        rel(shell_config_file(Shell::PowerShell, true, false, true, Some("C:\\p.ps1".to_string()), false, false)),
        Some("C:\\p.ps1".to_string())
    );
    assert_eq!(rel(shell_config_file(Shell::PowerShell, true, false, false, None, false, false)), None);
    assert_eq!(
        rel(shell_config_file(Shell::PowerShell, true, true, false, None, false, false)),
        Some("~/.config/powershell/Microsoft.PowerShell_profile.ps1".to_string())
    );
}
