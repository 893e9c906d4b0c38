//! Size of a built example binary.
use vstd::prelude::*;

use crate::Metrics;
use crate::{entries_view, texts};

verus! {

/// The example that is built when none is named.
pub open spec fn default_example() -> Seq<char> {
    "breakout"@
}

/// The example named by `example`, or the default one where it is empty.
pub open spec fn example_or_default(example: Seq<char>) -> Seq<char> {
    if example.len() == 0 {
        default_example()
    } else {
        example
    }
}

/// Choosing the example again changes nothing: the default example is
/// itself named.
pub proof fn lemma_example_choice_stable(example: Seq<char>)
    ensures
        example_or_default(example_or_default(example)) == example_or_default(example),
{
    reveal_strlit("breakout");
}

/// A named example is kept; no example means "breakout".
pub proof fn lemma_example_chosen(example: Seq<char>)
    ensures
        example.len() > 0 ==> example_or_default(example) == example,
        example.len() == 0 ==> example_or_default(example) == "breakout"@,
        example_or_default(example).len() > 0,
{
    reveal_strlit("breakout");
}

/// The example is built in release mode with `cargo build --example`, and
/// its size is named after the platform.
pub proof fn lemma_binary_size_text(example: Seq<char>, family: Seq<char>, arch: Seq<char>)
    ensures
        build_args(example) == seq!["build"@, "--release"@, "--example"@, example],
        size_key(family, arch) == "native-"@ + family + "-"@ + arch + ".size"@,
{
}

/// The arguments of `cargo` that build `example` in release mode.
pub open spec fn build_args(example: Seq<char>) -> Seq<Seq<char>> {
    seq!["build"@, "--release"@, "--example"@, example]
}

/// The name of the size metric on the given platform family and architecture.
pub open spec fn size_key(family: Seq<char>, arch: Seq<char>) -> Seq<char> {
    "native-"@ + family + "-"@ + arch + ".size"@
}

/// The size of the binary of one example.
pub struct BinarySize {
    pub example_name: String,
}

/// The default example's name.
pub(crate) fn default_example_name() -> (s: String)
    ensures
        s@ == default_example(),
{
    "breakout".to_owned()
}

impl BinarySize {
    /// Measures `example_name`, or the default example where it is empty.
    pub fn on(example_name: String) -> (r: Self)
        ensures
            r.example_name@ == example_or_default(example_name@),
    {
        Self {
            example_name: if example_name.as_str().is_empty() {
                default_example_name()
            } else {
                example_name
            },
        }
    }

    /// The arguments of `cargo` that build the example.
    pub fn build_args(&self) -> (args: Vec<String>)
        ensures
            texts(args@) == build_args(self.example_name@),
    {
        let mut args: Vec<String> = Vec::new();
        args.push("build".to_owned());
        args.push("--release".to_owned());
        args.push("--example".to_owned());
        args.push(self.example_name.clone());
        assert(texts(args@) =~= build_args(self.example_name@));
        args
    }

    /// The metric that reports `size`, the length in bytes of the built
    /// binary, on the platform `family` and `arch`.
    pub fn collect_from(&self, family: &str, arch: &str, size: u64) -> (entries: Vec<
        (String, u64),
    >)
        ensures
            entries_view(entries@) == seq![(size_key(family@, arch@), size)],
    {
        let mut key = "native-".to_owned();
        key.append(family);
        key.append("-");
        key.append(arch);
        key.append(".size");
        let mut entries: Vec<(String, u64)> = Vec::new();
        entries.push((key, size));
        assert(entries_view(entries@) =~= seq![(size_key(family@, arch@), size)]);
        entries
    }
}

impl Metrics for BinarySize {

}

} // verus!
