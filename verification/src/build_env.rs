//! The build profile, read from the build's output directory, and the
//! directives that tell the compiler which app environment to build for.
use crate::text::{same_text, split, split_on, texts, to_text};
use vstd::prelude::*;

verus! {

/// The cargo profile of a build.
#[derive(Debug, Clone, Copy, PartialEq, Eq, Structural)]
pub enum Profile {
    Release,
    Debug,
}

/// The profile named by the first directory that follows a `target`
/// directory and is `release` or `debug`.
pub open spec fn profile_of_parts(parts: Seq<Seq<char>>) -> Option<Profile>
    decreases parts.len(),
{
    if parts.len() < 2 {
        None
    } else if profile_of_parts(parts.drop_last()) is Some {
        profile_of_parts(parts.drop_last())
    } else if parts[parts.len() - 2] == "target"@ && parts.last() == "release"@ {
        Some(Profile::Release)
    } else if parts[parts.len() - 2] == "target"@ && parts.last() == "debug"@ {
        Some(Profile::Debug)
    } else {
        None
    }
}

/// A profile found at the end of a prefix is the one of any longer prefix.
proof fn lemma_profile_extends(parts: Seq<Seq<char>>, i: int, n: int)
    requires
        1 <= i < n <= parts.len(),
        profile_of_parts(parts.subrange(0, i)) is None,
        profile_of_parts(parts.subrange(0, i + 1)) is Some,
    ensures
        profile_of_parts(parts.subrange(0, n)) == profile_of_parts(parts.subrange(0, i + 1)),
    decreases n - i,
{
    if n > i + 1 {
        lemma_profile_extends(parts, i, n - 1);
        assert(parts.subrange(0, n).drop_last() =~= parts.subrange(0, n - 1));
    }
}

/// The profile that the output directory `out_dir` belongs to, its
/// components separated by `separator`; `None` where no `target` directory
/// is followed by `release` or `debug`.
pub fn get_profile_from_out_dir(out_dir: &str, separator: char) -> (r: Option<Profile>)
    ensures
        r == profile_of_parts(split_on(out_dir@, separator)),
{
    let parts = split(out_dir, separator);
    let ghost ps = texts(parts@);
    let n = parts.len();
    if n < 2 {
        return None;
    }
    let mut i: usize = 1;
    assert(ps.subrange(0, 1).len() < 2);
    while i < n
        invariant
            ps == texts(parts@),
            ps == split_on(out_dir@, separator),
            n == ps.len(),
            1 <= i <= n,
            profile_of_parts(ps.subrange(0, i as int)) is None,
        decreases n - i,
    {
        let ghost pre = ps.subrange(0, i + 1);
        assert(pre.drop_last() =~= ps.subrange(0, i as int));
        assert(pre[pre.len() - 2] == ps[i - 1]);
        assert(pre.last() == ps[i as int]);
        let found = if same_text(parts[i - 1].as_str(), "target") {
            if same_text(parts[i].as_str(), "release") {
                Some(Profile::Release)
            } else if same_text(parts[i].as_str(), "debug") {
                Some(Profile::Debug)
            } else {
                None
            }
        } else {
            None
        };
        assert(found == profile_of_parts(pre));
        if found.is_some() {
            proof {
                lemma_profile_extends(ps, i as int, n as int);
                assert(ps.subrange(0, n as int) =~= ps);
            }
            return found;
        }
        i = i + 1;
    }
    assert(ps.subrange(0, n as int) =~= ps);
    None
}

/// The directives a build script prints: the `app_env` configuration is
/// always declared, and set to `dev` for a debug build.
pub open spec fn app_env_directives(profile: Profile) -> Seq<Seq<char>> {
    let declare = "cargo::rustc-check-cfg=cfg(app_env, values(\"dev\"))"@;
    match profile {
        Profile::Debug => seq![declare, "cargo::rustc-cfg=app_env=\"dev\""@],
        Profile::Release => seq![declare],
    }
}

/// The lines that `set_app_env` prints for a profile.
pub fn set_app_env_lines(profile: Profile) -> (r: Vec<String>)
    ensures
        texts(r@) == app_env_directives(profile),
{
    let mut r: Vec<String> = Vec::new();
    r.push(to_text("cargo::rustc-check-cfg=cfg(app_env, values(\"dev\"))"));
    match profile {
        Profile::Debug => {
            r.push(to_text("cargo::rustc-cfg=app_env=\"dev\""));
        },
        _ => {},
    }
    assert(texts(r@) =~= app_env_directives(profile));
    r
}

} // verus!
