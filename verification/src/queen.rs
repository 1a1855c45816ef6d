//! Helpers around the project-scaffolding CLI: its install status, the
//! fixed template catalogue, and project-name validation.  Probing the
//! host for the CLI commands is the caller's job; the decisions about what
//! the probe results mean are made here.

use vstd::prelude::*;

verus! {

use vstd::string::StringExecFns;
use crate::text::str_to_chars;

/// Which of the scaffolding CLI's commands are present on the host.
#[derive(Debug, Clone, PartialEq)]
pub struct CommandsAvailable {
    pub queen_rag: bool,
    pub queen_nextjs: bool,
    pub queen_tauri: bool,
    pub queen_init: bool,
}

/// The install status of the scaffolding CLI.
#[derive(Debug, Clone, PartialEq)]
pub struct QueenCliStatus {
    pub installed: bool,
    pub version: Option<String>,
    pub commands_available: CommandsAvailable,
}

/// One project template offered by the scaffolding CLI.
#[derive(Debug, Clone, PartialEq)]
pub struct TemplateInfo {
    pub id: String,
    pub name: String,
    pub description: String,
}

/// Decide the CLI status from the per-command probe results: the CLI
/// counts as installed only when every command is present, and the probed
/// version is reported only then.
pub fn assemble_cli_status(
    queen_rag: bool,
    queen_nextjs: bool,
    queen_tauri: bool,
    queen_init: bool,
    version: Option<String>,
) -> (s: QueenCliStatus)
    ensures
        s.installed == (queen_rag && queen_nextjs && queen_tauri && queen_init),
        s.installed ==> s.version == version,
        !s.installed ==> s.version is None,
        s.commands_available.queen_rag == queen_rag,
        s.commands_available.queen_nextjs == queen_nextjs,
        s.commands_available.queen_tauri == queen_tauri,
        s.commands_available.queen_init == queen_init,
{
    let installed = queen_rag && queen_nextjs && queen_tauri && queen_init;
    QueenCliStatus {
        installed,
        version: if installed {
            version
        } else {
            None
        },
        commands_available: CommandsAvailable { queen_rag, queen_nextjs, queen_tauri, queen_init },
    }
}

/// The fixed catalogue of project templates.
pub fn get_queen_templates() -> (v: Vec<TemplateInfo>)
    ensures
        v@.len() == 3,
        v@[0].id@ == "queen-rag"@,
        v@[0].name@ == "Queen RAG"@,
        v@[0].description@ == "RAG application with vector database and semantic search"@,
        v@[1].id@ == "queen-nextjs"@,
        v@[1].name@ == "Queen Next.js"@,
        v@[1].description@ == "Full-stack Next.js application with Queen foundation"@,
        v@[2].id@ == "queen-tauri"@,
        v@[2].name@ == "Queen Tauri"@,
        v@[2].description@ == "Desktop application built with Tauri and Queen"@,
{
    let mut v: Vec<TemplateInfo> = Vec::new();
    v.push(
        TemplateInfo {
            id: String::from_str("queen-rag"),
            name: String::from_str("Queen RAG"),
            description: String::from_str(
                "RAG application with vector database and semantic search",
            ),
        },
    );
    v.push(
        TemplateInfo {
            id: String::from_str("queen-nextjs"),
            name: String::from_str("Queen Next.js"),
            description: String::from_str("Full-stack Next.js application with Queen foundation"),
        },
    );
    v.push(
        TemplateInfo {
            id: String::from_str("queen-tauri"),
            name: String::from_str("Queen Tauri"),
            description: String::from_str("Desktop application built with Tauri and Queen"),
        },
    );
    v
}

/// A character a project name may hold.
pub open spec fn valid_name_char(c: char) -> bool {
    ('a' <= c && c <= 'z') || c == '-'
}

/// A usable project name: nonempty, at most 25 characters, lower-case
/// ASCII letters and dashes only.
pub open spec fn valid_project_name(s: Seq<char>) -> bool {
    &&& 1 <= s.len() <= 25
    &&& forall|i: int| 0 <= i < s.len() ==> valid_name_char(s[i])
}

/// Whether `name` is a usable project name.
pub fn validate_project_name(name: &str) -> (r: bool)
    ensures
        r == valid_project_name(name@),
{
    let chars = str_to_chars(name);
    if chars.len() == 0 || chars.len() > 25 {
        return false;
    }
    let mut i: usize = 0;
    while i < chars.len()
        invariant
            i <= chars@.len(),
            chars@ == name@,
            forall|j: int| 0 <= j < i ==> valid_name_char(name@[j]),
        decreases chars.len() - i,
    {
        let c = chars[i];
        if !(('a' <= c && c <= 'z') || c == '-') {
            proof {
                assert(!valid_name_char(name@[i as int]));
            }
            return false;
        }
        i = i + 1;
    }
    true
}

} // verus!
