use vstd::prelude::*;

use crate::text::{lines, lines_of, trim, trimmed};

verus! {

/// The remote script that looks for fish: it prints fish's path, or "none".
pub const PROBE_SCRIPT: &'static str = "
find_cmd() {
    for tool in $@; do
        for dir in \"$HOME/.local/share/sshr/bin\" $(echo \"$PATH\" | tr \":\" \" \") \"$HOME/.nix-profile/bin\" \"$HOME/.local/bin\"; do
            if [ -x \"$dir/$tool\" ]; then
                echo \"$dir/$tool\"
                return
            fi
        done
    done
    echo none
}
find_cmd fish
";

/// What the probe's output says: the first line, trimmed, is fish's path unless it is
/// "none" (an empty output counts as "none").
pub open spec fn probe_answer(output: Seq<char>) -> Option<Seq<char>> {
    let ls = lines(output);
    let first = if ls.len() > 0 {
        ls[0]
    } else {
        "none"@
    };
    let t = trimmed(first);
    if t == "none"@ {
        None
    } else {
        Some(t)
    }
}

/// Reads the probe script's output: the path of fish on the remote, if it was found.
pub fn probe_remote(output: &str) -> (r: Option<String>)
    ensures
        r.deep_view() == probe_answer(output@),
{
    let ls = lines_of(output);
    let first = if ls.len() > 0 {
        trim(ls[0].as_str())
    } else {
        trim("none")
    };
    let none = "none".to_owned();
    if first == none {
        None
    } else {
        Some(first)
    }
}

} // verus!
