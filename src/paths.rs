use vstd::prelude::*;

use crate::sync::{collection_segment, segment, Collection};
use crate::text::{ends_with, has_prefix, has_suffix, starts_with};

verus! {

/// `base` joined with `part` as `Path::join` does on Unix: an absolute part
/// replaces the base, otherwise a `/` separates them unless the base is empty
/// or already ends in one.
pub open spec fn path_join(base: Seq<char>, part: Seq<char>) -> Seq<char> {
    if has_prefix(part, seq!['/']) {
        part
    } else if base.len() == 0 || has_suffix(base, seq!['/']) {
        base + part
    } else {
        base + seq!['/'] + part
    }
}

/// Joins `part` onto the directory `base`.
pub fn join_path(base: &str, part: &str) -> (r: String)
    ensures
        r@ == path_join(base@, part@),
{
    proof {
        reveal_strlit("/");
    }
    assert("/"@ =~= seq!['/']);
    if starts_with(part, "/") {
        return part.to_owned();
    }
    let mut s = base.to_owned();
    if !base.is_empty() && !ends_with(base, "/") {
        s.append("/");
    }
    s.append(part);
    s
}

/// The agent's own directory under the home directory.
pub fn get_kaya_dir(home: &str) -> (r: String)
    ensures
        r@ == path_join(home@, ".kaya"@),
{
    join_path(home, ".kaya")
}

/// The directory of the content collection.
pub fn get_anga_dir(kaya_dir: &str) -> (r: String)
    ensures
        r@ == path_join(kaya_dir@, "anga"@),
{
    join_path(kaya_dir, "anga")
}

/// The directory of the metadata collection.
pub fn get_meta_dir(kaya_dir: &str) -> (r: String)
    ensures
        r@ == path_join(kaya_dir@, "meta"@),
{
    join_path(kaya_dir, "meta")
}

/// The directory of a collection.
pub fn collection_dir(kaya_dir: &str, c: Collection) -> (r: String)
    ensures
        r@ == path_join(kaya_dir@, collection_segment(c)),
{
    join_path(kaya_dir, segment(c))
}

/// The settings file.
pub fn get_config_path(kaya_dir: &str) -> (r: String)
    ensures
        r@ == path_join(kaya_dir@, ".config"@),
{
    join_path(kaya_dir, ".config")
}

/// The log file.
pub fn get_log_path(kaya_dir: &str) -> (r: String)
    ensures
        r@ == path_join(kaya_dir@, "log"@),
{
    join_path(kaya_dir, "log")
}

} // verus!
