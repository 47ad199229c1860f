//! Where rules are looked for.
//!
//! Paths are those of Unix: sequences of bytes in which `/` separates the parts.

use vstd::prelude::*;
use vstd::utf8::{encode_utf8, is_ascii_chars, is_ascii_chars_encode_utf8};

verus! {

pub const SYSTEM_BUILTIN_RULES_DIR: &'static str = "/etc/aegira/rules/builtin";

pub const SYSTEM_CUSTOM_RULES_DIR: &'static str = "/etc/aegira/rules/custom";

/// The path of a file in a directory.
pub open spec fn path_in(directory: Seq<u8>, name: Seq<u8>) -> Seq<u8> {
    if directory.len() == 0 || directory.last() == 0x2f {
        directory + name
    } else {
        directory.push(0x2f) + name
    }
}

/// The directory of built-in rules, or of custom rules, in a project.
pub open spec fn rules_dir(root: Seq<u8>, kind: Seq<char>) -> Seq<u8> {
    path_in(path_in(root, encode_utf8("rules"@)), encode_utf8(kind))
}

fn enter(directory: Vec<u8>, name: &str) -> (r: Vec<u8>)
    ensures
        r@ == path_in(directory@, encode_utf8(name@)),
{
    let ghost start = directory@;
    let mut path: Vec<u8> = directory;
    if path.len() > 0 && path[path.len() - 1] != 0x2f {
        path.push(0x2f);
    }
    let mut tail: Vec<u8> = name.as_bytes_vec();
    path.append(&mut tail);
    assert(path@ == path_in(start, encode_utf8(name@)));
    path
}

/// The directory of the built-in rules of a project, where there is a project.
pub fn project_builtin_rules_dir(root: Option<Vec<u8>>) -> (r: Option<Vec<u8>>)
    ensures
        r is Some <==> root is Some,
        r is Some ==> (r->0)@ == rules_dir((root->0)@, "builtin"@),
{
    match root {
        Some(root) => Some(enter(enter(root, "rules"), "builtin")),
        None => None,
    }
}

/// The directory of the custom rules of a project, where there is a project.
pub fn project_custom_rules_dir(root: Option<Vec<u8>>) -> (r: Option<Vec<u8>>)
    ensures
        r is Some <==> root is Some,
        r is Some ==> (r->0)@ == rules_dir((root->0)@, "custom"@),
{
    match root {
        Some(root) => Some(enter(enter(root, "rules"), "custom")),
        None => None,
    }
}

/// The bytes of each path.
pub open spec fn path_bytes(paths: Seq<Vec<u8>>) -> Seq<Seq<u8>> {
    Seq::new(paths.len(), |i: int| paths[i]@)
}

fn project_first(project: Option<Vec<u8>>, system: &str) -> (r: Vec<Vec<u8>>)
    ensures
        path_bytes(r@) == (match project {
            Some(project) => seq![project@, encode_utf8(system@)],
            None => seq![encode_utf8(system@)],
        }),
{
    let mut paths: Vec<Vec<u8>> = Vec::new();
    let ghost given = project;
    match project {
        Some(project) => {
            paths.push(project);
        },
        None => {},
    }
    paths.push(system.as_bytes_vec());
    assert(path_bytes(paths@) == (match given {
        Some(project) => seq![project@, encode_utf8(system@)],
        None => seq![encode_utf8(system@)],
    }));
    paths
}

/// The directories that built-in rules are gathered from, in order: that of the
/// project, where there is one, and that of the system.
pub fn builtin_rule_dirs(root: Option<Vec<u8>>) -> (r: Vec<Vec<u8>>)
    ensures
        path_bytes(r@) == (match root {
            Some(root) => seq![
                rules_dir(root@, "builtin"@),
                encode_utf8("/etc/aegira/rules/builtin"@),
            ],
            None => seq![encode_utf8("/etc/aegira/rules/builtin"@)],
        }),
{
    project_first(project_builtin_rules_dir(root), SYSTEM_BUILTIN_RULES_DIR)
}

/// The directories that are looked at for custom rules, in order: that of the
/// project, where there is one, and that of the system.
pub fn custom_rule_dirs(root: Option<Vec<u8>>) -> (r: Vec<Vec<u8>>)
    ensures
        path_bytes(r@) == (match root {
            Some(root) => seq![
                rules_dir(root@, "custom"@),
                encode_utf8("/etc/aegira/rules/custom"@),
            ],
            None => seq![encode_utf8("/etc/aegira/rules/custom"@)],
        }),
{
    project_first(project_custom_rules_dir(root), SYSTEM_CUSTOM_RULES_DIR)
}

/// What comes before the name of a file in a directory is the directory and one
/// separator, which a directory that ends in one already has and the empty path lacks.
pub proof fn a_path_is_the_directory_and_the_name(directory: Seq<u8>, name: Seq<u8>)
    ensures
        path_in(directory.push(0x2f), name) == directory.push(0x2f) + name,
        directory.len() > 0 && directory.last() != 0x2f ==> path_in(directory, name) == path_in(
            directory.push(0x2f),
            name,
        ),
        path_in(Seq::empty(), name) == name,
{
    assert(Seq::<u8>::empty() + name == name);
}

/// The rules of a project stand in the directory `rules` of its root, those of each kind
/// in a directory of their own, whether or not the root is written with a separator at
/// its end.
pub proof fn rules_stand_below_the_root(root: Seq<u8>, kind: Seq<char>)
    ensures
        rules_dir(root.push(0x2f), kind) == root + encode_utf8("/rules/"@) + encode_utf8(kind),
        root.len() > 0 && root.last() != 0x2f ==> rules_dir(root, kind) == root + encode_utf8(
            "/rules/"@,
        ) + encode_utf8(kind),
        rules_dir(Seq::empty(), kind) == encode_utf8("rules/"@) + encode_utf8(kind),
{
    broadcast use is_ascii_chars_encode_utf8;

    reveal_strlit("rules");
    reveal_strlit("/rules/");
    reveal_strlit("rules/");
    let rules = encode_utf8("rules"@);
    let between = encode_utf8("/rules/"@);
    let own = encode_utf8(kind);
    assert(is_ascii_chars("rules"@) && is_ascii_chars("/rules/"@) && is_ascii_chars("rules/"@));
    assert(rules.len() == 5 && rules[4] == 0x73);
    assert(between == seq![0x2fu8] + rules + seq![0x2fu8]);
    assert(encode_utf8("rules/"@) == rules + seq![0x2fu8]);
    let inner = root.push(0x2f) + rules;
    assert(inner.last() == 0x73);
    assert(path_in(root.push(0x2f), rules) == inner);
    assert(inner.push(0x2f) + own == root + between + own);
    assert(Seq::<u8>::empty() + rules == rules);
    assert(rules.push(0x2f) == rules + seq![0x2fu8]);
}

} // verus!
