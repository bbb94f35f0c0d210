use rl::build_env::{get_profile_from_out_dir, set_app_env_lines, Profile};

#[test]
fn profiles() {
    assert_eq!(get_profile_from_out_dir("/w/target/debug/build/rl-1/out", '/'), Some(Profile::Debug));
    assert_eq!(get_profile_from_out_dir("/w/target/release/build/x/out", '/'), Some(Profile::Release));
    assert_eq!(get_profile_from_out_dir("/w/target/x/target/release", '/'), Some(Profile::Release));
    assert_eq!(get_profile_from_out_dir("/w/debug/out", '/'), None);
    assert_eq!(get_profile_from_out_dir("", '/'), None);
}

#[test]
fn directives() {
    assert_eq!(
        set_app_env_lines(Profile::Debug),
        vec![
            "cargo::rustc-check-cfg=cfg(app_env, values(\"dev\"))".to_string(),
            "cargo::rustc-cfg=app_env=\"dev\"".to_string()
        ]
    );
    assert_eq!(set_app_env_lines(Profile::Release).len(), 1);
}
