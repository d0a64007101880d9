//! How a guest is built: for which target, with which flags, and where the result is.
use vstd::prelude::*;

verus! {

/// A list of words with a separator between them.
pub open spec fn joined(words: Seq<Seq<char>>, sep: Seq<char>) -> Seq<char>
    decreases words.len(),
{
    if words.len() == 0 {
        Seq::empty()
    } else if words.len() == 1 {
        words[0]
    } else {
        joined(words.drop_last(), sep) + sep + words.last()
    }
}

/// The views of a list of strings.
pub open spec fn views(words: Seq<String>) -> Seq<Seq<char>> {
    words.map_values(|w: String| w@)
}

/// A list of words with a separator between them.
pub fn join(words: &Vec<String>, sep: &str) -> (text: String)
    ensures
        text@ == joined(views(words@), sep@),
{
    let mut text: String = String::new();
    let mut i: usize = 0;
    assert(views(words@).take(0) =~= Seq::<Seq<char>>::empty());
    while i < words.len()
        invariant
            i <= words@.len(),
            text@ == joined(views(words@).take(i as int), sep@),
        decreases words@.len() - i,
    {
        if i > 0 {
            text.append(sep);
        }
        text.append(words[i].as_str());
        proof {
            let now = views(words@).take(i + 1);
            assert(now.drop_last() =~= views(words@).take(i as int));
            assert(now.last() == words@[i as int]@);
            if i == 0 {
                assert(text@ =~= now[0]);
            }
        }
        i = i + 1;
    }
    assert(views(words@).take(i as int) =~= views(words@));
    text
}

/// The flags that a guest is compiled with: it starts at its entry point, is laid out
/// by the linker script at `link_script`, can be placed anywhere, and aborts on panics.
pub open spec fn flags(link_script: Seq<char>) -> Seq<Seq<char>> {
    seq![
        "--cfg=hyperlight"@,
        "--check-cfg=cfg(hyperlight)"@,
        "-Clink-args=-eentrypoint"@,
        "-Clink-args=-pie"@,
        "-Clink-args=-T"@ + link_script,
        "-Crelocation-model=pic"@,
        "-Ccode-model=large"@,
        "-Cpanic=abort"@,
    ]
}

/// The flags that a guest is compiled with, in the form in which they are handed on.
pub fn rustflags(link_script: &str) -> (text: String)
    ensures
        text@ == joined(flags(link_script@), "\x1f"@),
{
    let mut script: String = "-Clink-args=-T".to_string();
    script.append(link_script);
    let mut words: Vec<String> = Vec::new();
    words.push("--cfg=hyperlight".to_string());
    words.push("--check-cfg=cfg(hyperlight)".to_string());
    words.push("-Clink-args=-eentrypoint".to_string());
    words.push("-Clink-args=-pie".to_string());
    words.push(script);
    words.push("-Crelocation-model=pic".to_string());
    words.push("-Ccode-model=large".to_string());
    words.push("-Cpanic=abort".to_string());
    assert(views(words@) =~= flags(link_script@));
    join(&words, "\x1f")
}

/// The arguments of the build of a binary.
pub open spec fn arguments(manifest: Seq<char>, bin: Seq<char>, features: Seq<Seq<char>>) -> Seq<
    Seq<char>,
> {
    let plain = seq![
        "build"@,
        "--release"@,
        "--manifest-path"@,
        manifest,
        "--target"@,
        "x86_64-unknown-none"@,
        "--bin"@,
        bin,
    ];
    if features.len() == 0 {
        plain
    } else {
        plain + seq!["--features"@, joined(features, ","@)]
    }
}

/// The arguments of the build of a binary, with features if there are any.
pub fn build_arguments(manifest: &str, bin: &str, features: &Vec<String>) -> (args: Vec<String>)
    ensures
        views(args@) == arguments(manifest@, bin@, views(features@)),
{
    let mut args: Vec<String> = Vec::new();
    args.push("build".to_string());
    args.push("--release".to_string());
    args.push("--manifest-path".to_string());
    args.push(manifest.to_string());
    args.push("--target".to_string());
    args.push("x86_64-unknown-none".to_string());
    args.push("--bin".to_string());
    args.push(bin.to_string());
    if features.len() > 0 {
        args.push("--features".to_string());
        args.push(join(features, ","));
    }
    assert(views(args@) =~= arguments(manifest@, bin@, views(features@)));
    args
}

/// Where the binary is, below the directory of the build.
pub open spec fn artifact(bin: Seq<char>) -> Seq<Seq<char>> {
    seq!["nub-arch-guest-build"@, "x86_64-unknown-none"@, "release"@, bin]
}

/// Where the binary is, below the directory of the build, a directory at a time.
pub fn artifact_path(bin: &str) -> (parts: Vec<String>)
    ensures
        views(parts@) == artifact(bin@),
{
    let mut parts: Vec<String> = Vec::new();
    parts.push("nub-arch-guest-build".to_string());
    parts.push("x86_64-unknown-none".to_string());
    parts.push("release".to_string());
    parts.push(bin.to_string());
    assert(views(parts@) =~= artifact(bin@));
    parts
}

} // verus!
