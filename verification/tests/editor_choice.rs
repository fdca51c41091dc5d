use jj_gh::auth::EnvReader;
use jj_gh::editor::resolve_editor_argv;

#[derive(Default)]
struct FakeEnv(Vec<(String, String)>);

impl FakeEnv {
    fn with(pairs: &[(&str, &str)]) -> Self {
        Self(pairs.iter().map(|(k, v)| ((*k).to_string(), (*v).to_string())).collect())
    }
}

impl EnvReader for FakeEnv {
    fn get(&self, key: &str) -> Option<String> {
        self.0.iter().find(|(k, _)| k == key).map(|(_, v)| v.clone())
    }
}

#[test]
fn config_used_when_set() {
    let argv_cfg = vec!["code".to_string(), "--wait".into()];
    let env = FakeEnv::with(&[("VISUAL", "vim"), ("EDITOR", "vi")]);
    let argv = resolve_editor_argv(Some(&argv_cfg), &env).unwrap();
    assert_eq!(argv, vec!["code".to_string(), "--wait".into()]);
}

#[test]
fn visual_outranks_editor() {
    let env = FakeEnv::with(&[("VISUAL", "nvim +7"), ("EDITOR", "vi")]);
    let argv = resolve_editor_argv(None, &env).unwrap();
    assert_eq!(argv, vec!["nvim".to_string(), "+7".into()]);
}

#[test]
fn editor_env_used_when_visual_absent() {
    let env = FakeEnv::with(&[("EDITOR", "vi")]);
    let argv = resolve_editor_argv(None, &env).unwrap();
    assert_eq!(argv, vec!["vi".to_string()]);
}

#[test]
fn empty_visual_falls_through_to_editor() {
    let env = FakeEnv::with(&[("VISUAL", ""), ("EDITOR", "vi")]);
    let argv = resolve_editor_argv(None, &env).unwrap();
    assert_eq!(argv, vec!["vi".to_string()]);
}

#[test]
fn empty_config_editor_falls_through() {
    let empty: Vec<String> = vec![];
    let env = FakeEnv::with(&[("EDITOR", "vi")]);
    let argv = resolve_editor_argv(Some(&empty), &env).unwrap();
    assert_eq!(argv, vec!["vi".to_string()]);
}

#[test]
fn no_sources_errors() {
    let env = FakeEnv::default();
    let err = resolve_editor_argv(None, &env).unwrap_err();
    assert!(err.message().contains("no editor configured"));
}
