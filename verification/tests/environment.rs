use rew::env::{
    get_bin_name, get_spawned_by, Args, BufMode, Env, StdBuf, DEFAULT_BUF_SIZE, ENV_BUF_MODE,
    ENV_BUF_SIZE, ENV_NULL, ENV_SPAWNED_BY,
};

fn pairs(variables: &[(&str, &str)]) -> Vec<(String, String)> {
    variables
        .iter()
        .map(|(name, value)| (name.to_string(), value.to_string()))
        .collect()
}

fn args(null: bool, buf_mode: BufMode, buf_size: usize) -> Args {
    Args {
        null,
        buf_mode,
        buf_size,
    }
}

#[test]
fn default_buffer_is_32_kib() {
    assert_eq!(DEFAULT_BUF_SIZE, 32768);
    assert_eq!(ENV_NULL, "REW_NULL");
    assert_eq!(ENV_BUF_MODE, "REW_BUF_MODE");
    assert_eq!(ENV_BUF_SIZE, "REW_BUF_SIZE");
    assert_eq!(ENV_SPAWNED_BY, "_REW_SPAWNED_BY");
}

#[test]
fn terminal_output_goes_out_by_lines() {
    assert_eq!(BufMode::for_terminal(true), BufMode::Line);
    assert_eq!(BufMode::for_terminal(false), BufMode::Full);
    assert!(BufMode::Line.is_line() && !BufMode::Line.is_full());
    assert!(BufMode::Full.is_full() && !BufMode::Full.is_line());
    assert_eq!(BufMode::Line.name(), "line");
    assert_eq!(BufMode::Full.name(), "full");
}

#[test]
fn built_in_children_get_the_settings_and_the_ancestry() {
    let env = Env::new("x", args(false, BufMode::Line, 32768));
    assert_eq!(
        env.internal("rew"),
        pairs(&[
            ("REW_NULL", "false"),
            ("REW_BUF_MODE", "line"),
            ("REW_BUF_SIZE", "32768"),
            ("_REW_SPAWNED_BY", "rew x"),
        ])
    );
    let env = Env::new("trim", args(true, BufMode::Full, 0));
    assert_eq!(
        env.internal("/usr/bin/rew"),
        pairs(&[
            ("REW_NULL", "true"),
            ("REW_BUF_MODE", "full"),
            ("REW_BUF_SIZE", "0"),
            ("_REW_SPAWNED_BY", "/usr/bin/rew trim"),
        ])
    );
    let env = Env::new("x", args(false, BufMode::Full, usize::MAX));
    assert_eq!(env.internal("rew")[2].1, usize::MAX.to_string());
    let env = Env::new("x", args(false, BufMode::Full, 1090));
    assert_eq!(env.internal("rew")[2].1, "1090");
}

#[test]
fn other_children_are_asked_to_write_by_lines() {
    let mut env = Env::new("x", args(false, BufMode::Line, 8));
    assert_eq!(env.stdbuf, StdBuf { library: None });
    assert_eq!(env.external(), pairs(&[("PYTHONUNBUFFERED", "1")]));
    env.stdbuf = StdBuf {
        library: Some("/usr/lib/libstdbuf.so".to_string()),
    };
    assert_eq!(
        env.external(),
        pairs(&[
            ("LD_PRELOAD", "/usr/lib/libstdbuf.so"),
            ("_STDBUF_O", "L"),
            ("PYTHONUNBUFFERED", "1"),
        ])
    );
    env.args.buf_mode = BufMode::Full;
    assert_eq!(env.external(), pairs(&[]));
}

#[test]
fn ancestry_is_program_and_command() {
    assert_eq!(get_spawned_by("rew", "x"), "rew x");
    assert_eq!(get_spawned_by("target/debug/rew", "seq"), "target/debug/rew seq");
}

#[test]
fn program_name_comes_from_the_ancestry_first() {
    assert_eq!(get_bin_name(Some("rew x"), Some("ignored")), "rew");
    assert_eq!(get_bin_name(Some("my rew x"), None), "my rew");
    assert_eq!(get_bin_name(Some("rew"), None), "rew");
    assert_eq!(get_bin_name(Some(""), None), "");
    assert_eq!(get_bin_name(Some(" x"), None), "");
    assert_eq!(get_bin_name(Some("rew "), None), "rew");
    assert_eq!(get_bin_name(None, Some("./rew")), "./rew");
    assert_eq!(get_bin_name(None, None), "rew");
}
