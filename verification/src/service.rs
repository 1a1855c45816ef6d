//! The service namer: maps a port and a process name to a human-readable
//! service label.  Process-name overrides take precedence over the
//! port-range table, and unmatched ports fall back to a generic label.

use vstd::prelude::*;

verus! {

use vstd::string::StringExecFns;
use crate::text::{contains_seq, lower, contains_chars, lower_chars, str_to_chars};

/// The label given to a discovered `(port, process name)` pair.
pub open spec fn service_label(port: u16, name: Seq<char>) -> Seq<char> {
    let low = lower(name);
    if contains_seq(low, "vite"@) {
        "Vite"@
    } else if contains_seq(low, "webpack"@) {
        "Webpack Dev"@
    } else if contains_seq(low, "next"@) {
        "Next.js"@
    } else if port == 1420 {
        "Tauri Dev"@
    } else if 3000 <= port <= 3099 {
        if contains_seq(low, "bun"@) {
            "Bun Server"@
        } else if contains_seq(low, "node"@) {
            "React/Next.js"@
        } else {
            "Node.js Dev"@
        }
    } else if 4000 <= port <= 4099 {
        "Express/Node"@
    } else if 5000 <= port <= 5099 {
        if contains_seq(low, "python"@) {
            "Flask/Python"@
        } else {
            "Dev Server"@
        }
    } else if port == 5173 || port == 5174 {
        "Vite"@
    } else if port == 6006 {
        "Storybook"@
    } else if 7000 <= port <= 7099 {
        "Custom Dev"@
    } else if 8000 <= port <= 8099 {
        if contains_seq(low, "python"@) {
            "Django/Python"@
        } else {
            "Dev Server"@
        }
    } else if port == 8888 {
        "Jupyter"@
    } else if 9000 <= port <= 9099 {
        "Go/Dev Server"@
    } else {
        "Development Server"@
    }
}

fn contains_lower(low: &Vec<char>, needle: &str) -> (r: bool)
    ensures
        r == contains_seq(low@, needle@),
{
    let n = str_to_chars(needle);
    contains_chars(low, &n)
}

/// Label the service likely listening on `port` under `process_name`.
pub fn detect_service(port: u16, process_name: &str) -> (r: String)
    ensures
        r@ == service_label(port, process_name@),
{
    let chars = str_to_chars(process_name);
    let low = lower_chars(&chars);
    if contains_lower(&low, "vite") {
        String::from_str("Vite")
    } else if contains_lower(&low, "webpack") {
        String::from_str("Webpack Dev")
    } else if contains_lower(&low, "next") {
        String::from_str("Next.js")
    } else if port == 1420 {
        String::from_str("Tauri Dev")
    } else if 3000 <= port && port <= 3099 {
        if contains_lower(&low, "bun") {
            String::from_str("Bun Server")
        } else if contains_lower(&low, "node") {
            String::from_str("React/Next.js")
        } else {
            String::from_str("Node.js Dev")
        }
    } else if 4000 <= port && port <= 4099 {
        String::from_str("Express/Node")
    } else if 5000 <= port && port <= 5099 {
        if contains_lower(&low, "python") {
            String::from_str("Flask/Python")
        } else {
            String::from_str("Dev Server")
        }
    } else if port == 5173 || port == 5174 {
        String::from_str("Vite")
    } else if port == 6006 {
        String::from_str("Storybook")
    } else if 7000 <= port && port <= 7099 {
        String::from_str("Custom Dev")
    } else if 8000 <= port && port <= 8099 {
        if contains_lower(&low, "python") {
            String::from_str("Django/Python")
        } else {
            String::from_str("Dev Server")
        }
    } else if port == 8888 {
        String::from_str("Jupyter")
    } else if 9000 <= port && port <= 9099 {
        String::from_str("Go/Dev Server")
    } else {
        String::from_str("Development Server")
    }
}

/// The namer is total: every port and process name gets a nonempty label.
pub proof fn lemma_service_label_nonempty(port: u16, name: Seq<char>)
    ensures
        service_label(port, name).len() > 0,
{
    reveal_strlit("Vite");
    reveal_strlit("Webpack Dev");
    reveal_strlit("Next.js");
    reveal_strlit("Tauri Dev");
    reveal_strlit("Bun Server");
    reveal_strlit("React/Next.js");
    reveal_strlit("Node.js Dev");
    reveal_strlit("Express/Node");
    reveal_strlit("Flask/Python");
    reveal_strlit("Dev Server");
    reveal_strlit("Storybook");
    reveal_strlit("Custom Dev");
    reveal_strlit("Django/Python");
    reveal_strlit("Jupyter");
    reveal_strlit("Go/Dev Server");
    reveal_strlit("Development Server");
}

} // verus!
