use jj_gh::completions::{
    arg_line, arg_spec_lines, bash_cases, bash_sub_list, first_help_line, fish_escape, fish_lines,
    flag_list, nu_arg_spec_text, nushell_lines, overlay_shell, sub_predicate, zsh_cases,
    zsh_escape, zsh_sub_block, ArgInfo, CompletionError, CompletionShell, SubInfo,
};

fn fake_subs() -> Vec<SubInfo> {
    vec![
        SubInfo {
            name: "create".into(),
            aliases: vec!["c".into()],
            about: Some("Create a thing".into()),
            args: vec![
                ArgInfo { long: Some("draft".into()), short: None, about: Some("Open as draft.".into()), takes_value: false },
                ArgInfo { long: Some("base".into()), short: None, about: Some("Base bookmark.".into()), takes_value: true },
            ],
        },
        SubInfo { name: "fetch".into(), aliases: vec![], about: Some("Fetch a thing".into()), args: vec![] },
    ]
}

#[test]
fn wraps_and_chains() {
    let subs = fake_subs();
    assert_eq!(bash_sub_list(&subs), "create c fetch");
    let cases = bash_cases(&subs);
    assert!(cases.contains("create|c)"));
    assert!(cases.contains("--draft"));
    assert!(cases.contains("--base"));
    assert!(cases.contains("compgen -W \"--draft --base\""));
}

#[test]
fn registers_against_jj_and_gates_on_alias() {
    let lines = fish_lines("pr", &fake_subs());
    assert!(lines.contains(&"complete -c jj -n '__jj_gh_alias_no_subcommand pr' -f -a 'create' -d 'Create a thing'".to_string()));
    assert!(lines.iter().any(|l| l.starts_with("complete -c jj -n '__jj_gh_alias_no_subcommand pr' -f -a 'c'")));
    assert!(lines.iter().any(|l| l.contains("-a 'fetch'")));
    let base_line = lines.iter().find(|l| l.contains("-l base")).expect("base line");
    assert!(base_line.contains("__jj_gh_alias_at_subcommand pr create c"));
    assert!(base_line.contains(" -r"));
    let draft_line = lines.iter().find(|l| l.contains("-l draft")).expect("draft line");
    assert!(draft_line.contains(" -f"));
}

#[test]
fn compdef_and_chains() {
    let subs = fake_subs();
    let block = zsh_sub_block(&subs);
    assert!(block.contains("'create:Create a thing'"));
    assert!(block.contains("'c:Create a thing'"));
    assert!(block.contains("'fetch:Fetch a thing'"));
    let cases = zsh_cases(&subs);
    assert!(cases.contains("(create|c)"));
    assert!(cases.contains("--draft"));
    assert!(cases.contains("--base="));
    assert!(cases.contains("(fetch)\n                _arguments\n                ;;\n"));
}

#[test]
fn emits_compound_externs_for_alias() {
    let lines = nushell_lines("pr", &fake_subs());
    assert!(lines.contains(&"  export extern \"jj pr create\" [".to_string()));
    assert!(lines.contains(&"  export extern \"jj pr c\" [".to_string()));
    assert!(lines.iter().any(|l| l.contains("--draft")));
    assert!(lines.iter().any(|l| l.contains("--base: string")));
}

#[test]
fn unsupported_shell_errors_with_name() {
    let err = overlay_shell(CompletionShell::PowerShell).unwrap_err();
    assert_eq!(err, CompletionError::UnsupportedShell(CompletionShell::PowerShell));
    assert!(err.message().contains("powershell"));
    assert_eq!(overlay_shell(CompletionShell::Zsh), Ok(CompletionShell::Zsh));
}

#[test]
fn help_lines_and_escapes() {
    assert_eq!(first_help_line("  First line  \nsecond"), "First line");
    assert_eq!(first_help_line(""), "");
    assert_eq!(fish_escape(r"it's a\b"), r"it\'s a\\b");
    assert_eq!(zsh_escape(r"it's a\b"), r"it''s a\\b");
}

#[test]
fn flag_pieces_per_shell() {
    let both = ArgInfo { long: Some("template".into()), short: Some('T'), about: Some("Tmpl".into()), takes_value: true };
    let none = ArgInfo { long: None, short: None, about: None, takes_value: false };
    assert_eq!(flag_list(&[both.clone(), none.clone()]), "--template -T");
    assert_eq!(
        arg_line("p", &both),
        "complete -c jj -n 'p' -s T -l template -r -d 'Tmpl'"
    );
    assert_eq!(sub_predicate("pr", &vec!["create".into(), "c".into()]), "__jj_gh_alias_at_subcommand pr create c");
    assert_eq!(
        arg_spec_lines(&[both.clone(), none.clone()]),
        "                    '(-T --template)'{-T,--template=}'[Tmpl]'"
    );
    assert_eq!(nu_arg_spec_text(&both), "--template(-T): string # Tmpl");
    assert_eq!(nu_arg_spec_text(&none), "");
}
