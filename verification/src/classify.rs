//! The process classifier: whether a process name indicates development
//! tooling.  The allow-list is matched case-insensitively and by substring,
//! because process tables often report wrapped or versioned binary names.

use vstd::prelude::*;

verus! {

use crate::text::{
    contains_seq,
    lower,
    lower_char,
    contains_chars,
    lower_chars,
    str_to_chars,
};

/// The allow-list of process-name substrings that indicate development
/// tooling.
pub open spec fn dev_names() -> Seq<Seq<char>> {
    seq![
        "node"@,
        "bun"@,
        "deno"@,
        "python"@,
        "python3"@,
        "ruby"@,
        "go"@,
        "cargo"@,
        "rust"@,
        "vite"@,
        "webpack-dev-server"@,
        "next-dev"@,
        "parcel"@,
        "rollup"@,
        "esbuild"@,
        "tsx"@,
        "ts-node"@,
        "nodemon"@,
        "npx"@,
        "pnpm"@,
        "yarn"@,
        "flask"@,
        "django"@,
        "rails"@,
        "php"@,
        "dotnet"@,
    ]
}

/// A process name counts as development tooling when its lower-cased form
/// contains one of the allow-listed substrings.
pub open spec fn is_dev_name(name: Seq<char>) -> bool {
    exists|k: int| 0 <= k < dev_names().len() && contains_seq(lower(name), dev_names()[k])
}

/// The allow-list as an executable table, in the order of `dev_names`.
fn dev_name_list() -> (v: Vec<&'static str>)
    ensures
        v@.len() == dev_names().len(),
        forall|k: int| 0 <= k < v@.len() ==> (#[trigger] v@[k])@ == dev_names()[k],
{
    let v: Vec<&'static str> = vec![
        "node",
        "bun",
        "deno",
        "python",
        "python3",
        "ruby",
        "go",
        "cargo",
        "rust",
        "vite",
        "webpack-dev-server",
        "next-dev",
        "parcel",
        "rollup",
        "esbuild",
        "tsx",
        "ts-node",
        "nodemon",
        "npx",
        "pnpm",
        "yarn",
        "flask",
        "django",
        "rails",
        "php",
        "dotnet",
    ];
    v
}

/// Whether `name` looks like a development-tooling process.
pub fn is_dev_process(name: &str) -> (r: bool)
    ensures
        r == is_dev_name(name@),
{
    let chars = str_to_chars(name);
    let low = lower_chars(&chars);
    let names = dev_name_list();
    let mut k: usize = 0;
    while k < names.len()
        invariant
            k <= names@.len(),
            names@.len() == dev_names().len(),
            forall|t: int| 0 <= t < names@.len() ==> (#[trigger] names@[t])@ == dev_names()[t],
            low@ == lower(name@),
            forall|t: int| 0 <= t < k ==> !contains_seq(lower(name@), dev_names()[t]),
        decreases names.len() - k,
    {
        let needle = str_to_chars(names[k]);
        if contains_chars(&low, &needle) {
            proof {
                assert(contains_seq(lower(name@), dev_names()[k as int]));
            }
            return true;
        }
        k = k + 1;
    }
    false
}

/// Lower-casing a character twice is the same as doing it once.
pub proof fn lemma_lower_char_idempotent(c: char)
    ensures
        lower_char(lower_char(c)) == lower_char(c),
{
}

/// The classifier is case-insensitive: a name and its lower-cased form are
/// classified alike.
pub proof fn lemma_is_dev_name_case_insensitive(name: Seq<char>)
    ensures
        is_dev_name(lower(name)) == is_dev_name(name),
{
    assert forall|i: int| 0 <= i < name.len() implies lower(lower(name))[i] == lower(name)[i] by {
        lemma_lower_char_idempotent(name[i]);
    }
    assert(lower(lower(name)) =~= lower(name));
}

} // verus!
