use vstd::prelude::*;

use crate::filesystem::{expand_path, expands_to, is_absolute, join, join_path};

verus! {

#[verifier::external_type_specification]
#[verifier::external_body]
pub struct ExContext(tera::Context);

/// State threaded through a run: the template parameters and the current nesting depth.
pub struct Params {
    pub context: tera::Context,
    pub depth: usize,
}

impl Params {
    pub fn new(context: tera::Context) -> (r: Params)
        ensures
            r.context == context,
            r.depth == 0,
    {
        Params { context, depth: 0 }
    }
}

/// Where an asset named `p` (already expanded) lies: an absolute path is used as it is,
/// anything else lies in the directory `dir` under the configuration root.
pub open spec fn resolve(root: Seq<char>, dir: Seq<char>, p: Seq<char>) -> Seq<char> {
    if is_absolute(p) {
        p
    } else {
        join(join(root, dir), p)
    }
}

/// `r` is where the asset `p` of directory `dir` lies, for some expansion of `p`.
pub open spec fn asset_at(root: Seq<char>, dir: Seq<char>, p: Seq<char>, r: Seq<char>) -> bool {
    exists|e: Seq<char>| #[trigger] expands_to(p, e) && r == resolve(root, dir, e)
}

/// The configuration root of the tool inside the user's configuration directory.
pub fn config_root(config_dir: &str) -> (r: String)
    ensures
        r@ == join(config_dir@, "zapp"@),
{
    join_path(config_dir, "zapp")
}

pub fn resolve_asset(root: &str, asset_dir: &str, expanded: &str) -> (r: String)
    ensures
        r@ == resolve(root@, asset_dir@, expanded@),
{
    if expanded.unicode_len() > 0 && expanded.get_char(0) == '/' {
        expanded.to_owned()
    } else {
        let base = join_path(root, asset_dir);
        join_path(base.as_str(), expanded)
    }
}

/// Path of the asset `asset_path` kept in the directory `asset_dir` of the configuration
/// root `root`.
pub fn asset(root: &str, asset_dir: &str, asset_path: &str) -> (r: String)
    ensures
        asset_at(root@, asset_dir@, asset_path@, r@),
{
    let expanded = expand_path(asset_path);
    let r = resolve_asset(root, asset_dir, expanded.as_str());
    assert(expands_to(asset_path@, expanded@));
    r
}

/// Path of the task-definition file that the entry `task_name` includes.
pub fn task_file(root: &str, task_name: &str) -> (r: String)
    ensures
        asset_at(root@, "tasks"@, task_name@ + ".yaml"@, r@),
{
    let mut file = task_name.to_owned();
    file.append(".yaml");
    asset(root, "tasks", file.as_str())
}

} // verus!
