//! Which secrets an environment keeps in the OS keychain, and under which account.
use vstd::prelude::*;
use crate::models::{SecretMetadata, WorkspaceConfig};
use crate::order::{seq_lt, sorted_set, strictly_sorted};
use crate::paths::{join, secrets_file};
use crate::text::{concat, str_eq, views};

verus! {

/// The keychain service under which secrets are stored.
pub const KEYCHAIN_SERVICE: &'static str = "dev.hermes.api-client";

/// The keychain account of a secret: `{workspace id}:{environment id}:{key}`.
pub open spec fn account_text(workspace_id: Seq<char>, environment_id: Seq<char>, key: Seq<char>) -> Seq<char> {
    workspace_id + ":"@ + environment_id + ":"@ + key
}

/// The keychain account of the secret `key` of an environment of `workspace`.
pub fn account_name(workspace: &WorkspaceConfig, environment_id: &str, key: &str) -> (res: String)
    ensures
        res@ == account_text(workspace.id@, environment_id@, key@),
{
    let a = concat(workspace.id.as_str(), ":");
    let b = concat(a.as_str(), environment_id);
    let c = concat(b.as_str(), ":");
    concat(c.as_str(), key)
}

/// The file that lists the secret keys of an environment.
pub fn metadata_path(workspace_path: &str, environment_id: &str) -> (res: String)
    ensures
        res@ == secrets_file(workspace_path@, environment_id@),
{
    let dir = join(workspace_path, ".hermes");
    let a = concat("secrets-", environment_id);
    let file = concat(a.as_str(), ".yaml");
    join(dir.as_str(), file.as_str())
}

/// The secret keys of an environment, given its metadata file's content
/// (`None` when the file does not exist).
pub fn get_secret_metadata(metadata: Option<SecretMetadata>) -> (res: Vec<String>)
    ensures
        metadata is None ==> res@.len() == 0,
        metadata matches Some(m) ==> res@ == m.keys@,
{
    match metadata {
        Some(m) => m.keys,
        None => Vec::new(),
    }
}

/// The keys after storing the secret `key`: all keys, sorted, each once.
pub fn keys_with(keys: &Vec<String>, key: &str) -> (res: Vec<String>)
    ensures
        strictly_sorted(views(res@)),
        forall|x: Seq<char>| views(res@).contains(x) <==> (views(keys@).contains(x) || x == key@),
{
    let mut all = keys.clone();
    let k = crate::text::owned(key);
    all.push(k);
    proof {
        assert(views(all@) == views(keys@).push(key@));
        assert forall|x: Seq<char>| views(all@).contains(x) <==> (views(keys@).contains(x) || x == key@) by {
            if views(all@).contains(x) && x != key@ {
                let i = choose|i: int| 0 <= i < views(all@).len() && views(all@)[i] == x;
                assert(views(keys@)[i] == x);
            }
            if views(keys@).contains(x) {
                let i = choose|i: int| 0 <= i < views(keys@).len() && views(keys@)[i] == x;
                assert(views(all@)[i] == x);
            }
            if x == key@ {
                assert(views(all@)[keys.len() as int] == x);
            }
        }
    }
    sorted_set(&all)
}

/// The keys other than `key`, in order.
pub open spec fn without_key(keys: Seq<Seq<char>>, key: Seq<char>) -> Seq<Seq<char>>
    decreases keys.len(),
{
    if keys.len() == 0 {
        Seq::empty()
    } else if keys.last() == key {
        without_key(keys.drop_last(), key)
    } else {
        without_key(keys.drop_last(), key).push(keys.last())
    }
}

/// The keys after deleting the secret `key`.
pub fn keys_without(keys: &Vec<String>, key: &str) -> (res: Vec<String>)
    ensures
        views(res@) == without_key(views(keys@), key@),
{
    let mut res: Vec<String> = Vec::new();
    let mut i: usize = 0;
    while i < keys.len()
        invariant
            i <= keys.len(),
            views(res@) == without_key(views(keys@).subrange(0, i as int), key@),
        decreases keys.len() - i,
    {
        proof {
            assert(views(keys@).subrange(0, i + 1).drop_last() == views(keys@).subrange(
                0,
                i as int,
            ));
            assert(views(keys@).subrange(0, i + 1).last() == keys@[i as int]@);
        }
        if !str_eq(keys[i].as_str(), key) {
            let t = keys[i].clone();
            res.push(t);
            assert(views(res@) == views(res@).drop_last().push(t@));
        }
        i += 1;
    }
    assert(views(keys@).subrange(0, keys.len() as int) == views(keys@));
    res
}

/// What `without_key` keeps: every key but `key`, and only those.
proof fn lemma_without_key_contains(keys: Seq<Seq<char>>, key: Seq<char>, x: Seq<char>)
    ensures
        without_key(keys, key).contains(x) <==> (keys.contains(x) && x != key),
    decreases keys.len(),
{
    if keys.len() > 0 {
        let rest = keys.drop_last();
        lemma_without_key_contains(rest, key, x);
        assert(keys == rest.push(keys.last()));
        if keys.contains(x) && x != key && !rest.contains(x) {
            let i = choose|i: int| 0 <= i < keys.len() && keys[i] == x;
            if i < rest.len() {
                assert(rest[i] == x);
            }
        }
        if rest.contains(x) {
            let i = choose|i: int| 0 <= i < rest.len() && rest[i] == x;
            assert(keys[i] == x);
        }
        let w = without_key(rest, key);
        if keys.last() != key {
            if w.push(keys.last()).contains(x) && x != keys.last() {
                let i = choose|i: int| 0 <= i < w.len() + 1 && w.push(keys.last())[i] == x;
                assert(w[i] == x);
            }
            if w.contains(x) {
                let i = choose|i: int| 0 <= i < w.len() && w[i] == x;
                assert(w.push(keys.last())[i] == x);
            }
            if x == keys.last() {
                assert(w.push(keys.last())[w.len() as int] == x);
            }
        }
    }
}

/// `without_key` keeps a strictly sorted list strictly sorted.
proof fn lemma_without_key_sorted(keys: Seq<Seq<char>>, key: Seq<char>)
    requires
        strictly_sorted(keys),
    ensures
        strictly_sorted(without_key(keys, key)),
    decreases keys.len(),
{
    if keys.len() > 0 {
        let rest = keys.drop_last();
        lemma_without_key_sorted(rest, key);
        if keys.last() != key {
            let w = without_key(rest, key);
            assert forall|i: int, j: int|
                0 <= i < j < w.len() + 1 implies seq_lt(
                #[trigger] w.push(keys.last())[i],
                #[trigger] w.push(keys.last())[j],
            ) by {
                if j == w.len() {
                    lemma_without_key_contains(rest, key, w[i]);
                    assert(w.contains(w[i]));
                    let k = choose|k: int| 0 <= k < rest.len() && rest[k] == w[i];
                    assert(keys[k] == rest[k]);
                }
            }
        }
    }
}

/// Storing the secret `key` and then deleting it leaves exactly the keys
/// there were before but `key`, still sorted and each once: `stored` is the
/// list the metadata holds after storing (as `keys_with` gives it), the
/// result is what deleting makes of it (as `keys_without` gives it).
pub proof fn lemma_store_then_delete(keys: Seq<Seq<char>>, stored: Seq<Seq<char>>, key: Seq<char>)
    requires
        strictly_sorted(stored),
        forall|x: Seq<char>| stored.contains(x) <==> (keys.contains(x) || x == key),
    ensures
        strictly_sorted(without_key(stored, key)),
        forall|x: Seq<char>|
            without_key(stored, key).contains(x) <==> (keys.contains(x) && x != key),
{
    lemma_without_key_sorted(stored, key);
    assert forall|x: Seq<char>|
        without_key(stored, key).contains(x) <==> (keys.contains(x) && x != key) by {
        lemma_without_key_contains(stored, key, x);
    }
}

/// Storing a secret that is already listed leaves the list as it was: the
/// keys are kept sorted and each once. `once` is the list after storing
/// `key` into `keys`, `twice` the list after storing it again.
pub proof fn lemma_store_twice(keys: Seq<Seq<char>>, once: Seq<Seq<char>>, twice: Seq<Seq<char>>, key: Seq<char>)
    requires
        strictly_sorted(once),
        forall|x: Seq<char>| once.contains(x) <==> (keys.contains(x) || x == key),
        strictly_sorted(twice),
        forall|x: Seq<char>| twice.contains(x) <==> (once.contains(x) || x == key),
    ensures
        twice == once,
{
    crate::order::lemma_sorted_set_unique(twice, once);
}

} // verus!
