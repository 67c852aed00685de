//! Dedup keys: the identity under which an asynchronous action is known to
//! the task tracker.  A key is made of the action's name and the text of its
//! arguments, never of the place of a node in the tree, so that two leaves
//! with the same action and arguments share one effect in flight.

use vstd::prelude::*;
use vstd::string::StringExecFns;

verus! {

/// The compact JSON text of the array that holds `args`, as `serde_json`
/// writes it.
pub uninterp spec fn json_text(args: Seq<serde_json::Value>) -> Seq<char>;

/// `serde_json::Value`'s `to_string` on the array of `args`: the compact JSON
/// text of that array.  The text is a function of the values alone.
#[verifier::external_body]
fn args_text(args: &[serde_json::Value]) -> (text: String)
    ensures
        text@ == json_text(args@),
{
    serde_json::Value::Array(args.to_vec()).to_string()
}

/// What separates the name from the arguments in a key.
pub open spec fn separator() -> Seq<char> {
    seq![':', ' ']
}

/// The key made of a name and the text of an argument list.
pub open spec fn key_of(name: Seq<char>, text: Seq<char>) -> Seq<char> {
    name + separator() + text
}

/// The dedup key of an action invoked with `args`.
pub open spec fn dedup_key(name: Seq<char>, args: Seq<serde_json::Value>) -> Seq<char> {
    key_of(name, json_text(args))
}

/// Joins a name and the text of an argument list into a key: the name, a
/// colon, a space, the text.
pub fn compose_key(name: &str, text: &str) -> (key: String)
    ensures
        key@ == key_of(name@, text@),
{
    let mut key = String::from_str(name);
    proof {
        reveal_strlit(": ");
        assert(": "@ =~= separator());
    }
    key.append(": ");
    key.append(text);
    key
}

/// The dedup key of the action `name` invoked with `args`.
pub fn task_key(name: &str, args: &[serde_json::Value]) -> (key: String)
    ensures
        key@ == dedup_key(name@, args@),
{
    let text = args_text(args);
    compose_key(name, text.as_str())
}

} // verus!
