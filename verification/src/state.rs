//! Saved browser state: the checks made when saving and loading a snapshot,
//! the navigation that restores the active page, and the listing of saved
//! snapshots sorted by name.
use vstd::prelude::*;
use vstd::string::StringExecFns;
use crate::paths::{join_path, path_join, state_file_name_spec, state_name_check};
use crate::text::{
    chars_of, contains_seq, decimal, ends_with_seq, is_blank, occurs_at, starts_with_seq, push_decimal, push_str, str_ends_with, str_eq,
    string_from_chars, take_chars,
};

verus! {

broadcast use {vstd::seq_lib::to_multiset_insert, vstd::seq_lib::to_multiset_build};

/// The snapshot format version written and accepted.
pub const STATE_SNAPSHOT_VERSION: u32 = 1;

/// Why a snapshot cannot be saved or loaded.
#[derive(Debug)]
pub enum StateFileError {
    /// The file holds a snapshot of another format version (version, path).
    UnsupportedVersion(u32, String),
    /// The page has an opaque origin (its URL is given), so it has no storage to save.
    OpaqueOrigin(String),
}

/// The text shown to the user for a snapshot error.
pub open spec fn state_file_error_text(e: StateFileError) -> Seq<char> {
    match e {
        StateFileError::UnsupportedVersion(v, p) => "Unsupported state snapshot version "@ + decimal(
            v as nat,
        ) + " in "@ + p@,
        StateFileError::OpaqueOrigin(h) => "Cannot save state for opaque origin '"@ + h@
            + "'; navigate to an http(s) page first"@,
    }
}

impl StateFileError {
    /// The text shown to the user for this error.
    pub fn message(&self) -> (m: String)
        ensures
            m@ == state_file_error_text(*self),
    {
        match self {
            StateFileError::UnsupportedVersion(v, p) => {
                let mut m = String::from_str("Unsupported state snapshot version ");
                push_decimal(&mut m, *v as u64);
                push_str(&mut m, " in ");
                push_str(&mut m, p.as_str());
                m
            },
            StateFileError::OpaqueOrigin(h) => {
                let mut m = String::from_str("Cannot save state for opaque origin '");
                push_str(&mut m, h.as_str());
                push_str(&mut m, "'; navigate to an http(s) page first");
                m
            },
        }
    }
}

/// A loaded snapshot must be of the supported format version.
pub fn check_state_version(version: u32, path: &str) -> (r: Result<(), StateFileError>)
    ensures
        r is Ok <==> version == STATE_SNAPSHOT_VERSION,
        r matches Err(StateFileError::UnsupportedVersion(v, p)) ==> v == version && p@ == path@,
        !(r matches Err(StateFileError::OpaqueOrigin(_))),
{
    if version != STATE_SNAPSHOT_VERSION {
        return Err(StateFileError::UnsupportedVersion(version, String::from_str(path)));
    }
    Ok(())
}

/// A page can only be saved when its origin is not the opaque origin "null".
pub fn check_page_origin(origin: &str, href: &str) -> (r: Result<(), StateFileError>)
    ensures
        r is Ok <==> origin@ != "null"@,
        r matches Err(StateFileError::OpaqueOrigin(h)) ==> h@ == href@,
        !(r matches Err(StateFileError::UnsupportedVersion(_, _))),
{
    if str_eq(origin, "null") {
        return Err(StateFileError::OpaqueOrigin(String::from_str(href)));
    }
    Ok(())
}

/// After the saved origins were restored in order, the active page is
/// opened again unless it was the last origin visited.
pub fn needs_final_navigation(origin_urls: &[String], active_url: &str) -> (b: bool)
    ensures
        b == (origin_urls@.len() == 0 || origin_urls@.last()@ != active_url@),
{
    let n = origin_urls.len();
    if n == 0 {
        return true;
    }
    !str_eq(origin_urls[n - 1].as_str(), active_url)
}

// ---------------------------------------------------------------------------
// Listing saved snapshots
// ---------------------------------------------------------------------------

/// One saved snapshot: its name and file.
#[derive(Debug)]
pub struct StateListEntry {
    pub name: String,
    pub path: String,
}

/// The name and file of an entry.
pub open spec fn entry_view(e: StateListEntry) -> (Seq<char>, Seq<char>) {
    (e.name@, e.path@)
}

/// The snapshot name of a directory entry: the file stem when the extension
/// is "json" (as `Path::extension` reads it: after the last '.', which must
/// not be the first character); `None` for other files.
pub open spec fn json_stem(file_name: Seq<char>) -> Option<Seq<char>> {
    if ends_with_seq(file_name, ".json"@) && file_name.len() > 5 {
        Some(file_name.take(file_name.len() - 5))
    } else {
        None
    }
}

/// The snapshots among the directory entries `names` of `root`, in directory order.
pub open spec fn listed_states(root: Seq<char>, names: Seq<Seq<char>>) -> Seq<(Seq<char>, Seq<char>)>
    decreases names.len(),
{
    if names.len() == 0 {
        Seq::empty()
    } else {
        let prev = listed_states(root, names.drop_last());
        match json_stem(names.last()) {
            Some(stem) => prev.push((stem, path_join(root, names.last()))),
            None => prev,
        }
    }
}

/// The listing holds exactly the directory entries whose name ends in
/// ".json" with something before it, in directory order, each named by what
/// comes before ".json" and located in `root`.
pub proof fn lemma_listed_states_exact(root: Seq<char>, names: Seq<Seq<char>>)
    ensures
        listed_states(root, names) == names.filter(
            |f: Seq<char>| ends_with_seq(f, ".json"@) && f.len() > 5,
        ).map_values(|f: Seq<char>| (f.take(f.len() - 5), path_join(root, f))),
    decreases names.len(),
{
    reveal(Seq::filter);
    if names.len() > 0 {
        lemma_listed_states_exact(root, names.drop_last());
        let pred = |f: Seq<char>| ends_with_seq(f, ".json"@) && f.len() > 5;
        let g = |f: Seq<char>| (f.take(f.len() - 5), path_join(root, f));
        let prev = names.drop_last().filter(pred);
        assert(prev.push(names.last()).map_values(g) =~= prev.map_values(g).push(g(names.last())));
    }
}

/// `a` sorts strictly before `b` by character code (which is how Rust
/// orders strings: by their UTF-8 bytes).
pub open spec fn seq_lt(a: Seq<char>, b: Seq<char>) -> bool
    decreases a.len(),
{
    if a.len() == 0 {
        b.len() > 0
    } else if b.len() == 0 {
        false
    } else if (a[0] as u32) < (b[0] as u32) {
        true
    } else if a[0] == b[0] {
        seq_lt(a.drop_first(), b.drop_first())
    } else {
        false
    }
}

/// The entries are in ascending order of name.
pub open spec fn sorted_by_name(es: Seq<(Seq<char>, Seq<char>)>) -> bool {
    forall|i: int, j: int| 0 <= i < j < es.len() ==> !seq_lt(#[trigger] es[j].0, #[trigger] es[i].0)
}

proof fn lemma_lt_asymmetric(a: Seq<char>, b: Seq<char>)
    ensures
        !(seq_lt(a, b) && seq_lt(b, a)),
    decreases a.len(),
{
    if a.len() > 0 && b.len() > 0 && a[0] == b[0] {
        lemma_lt_asymmetric(a.drop_first(), b.drop_first());
    }
}

proof fn lemma_lt_transitive(a: Seq<char>, b: Seq<char>, c: Seq<char>)
    requires
        seq_lt(a, b),
        seq_lt(b, c),
    ensures
        seq_lt(a, c),
    decreases a.len(),
{
    if a.len() > 0 && b.len() > 0 && c.len() > 0 && a[0] == b[0] && b[0] == c[0] {
        lemma_lt_transitive(a.drop_first(), b.drop_first(), c.drop_first());
    }
}

/// A snapshot saved under a valid name is listed under that name (without a
/// ".json" the name itself carried), except for the name ".json" itself,
/// whose file has no extension in `Path`'s reading.
pub proof fn lemma_saved_name_is_listed(name: Seq<char>)
    requires
        state_name_check(name) is Ok,
        name != ".json"@,
    ensures
        json_stem(state_file_name_spec(name)) == Some(
            if ends_with_seq(name, ".json"@) {
                name.take(name.len() - 5)
            } else {
                name
            },
        ),
{
    reveal_strlit(".json");
    if ends_with_seq(name, ".json"@) {
        if name.len() == 5 {
            assert(name =~= ".json"@);
        }
    } else {
        let f = name + ".json"@;
        assert(f.subrange(f.len() - 5, f.len() as int) =~= ".json"@);
        assert(f.take(f.len() - 5) =~= name);
        assert(name.len() > 0) by {
            if name.len() == 0 {
                assert(is_blank(name));
            }
        }
    }
}

/// Whether `a` sorts strictly before `b`.
fn chars_lt(a: &[char], b: &[char]) -> (r: bool)
    ensures
        r == seq_lt(a@, b@),
{
    let n = a.len();
    let m = b.len();
    let mut i: usize = 0;
    proof {
        assert(a@.skip(0) =~= a@);
        assert(b@.skip(0) =~= b@);
    }
    while i < n && i < m
        invariant
            n == a@.len(),
            m == b@.len(),
            i <= n,
            i <= m,
            seq_lt(a@, b@) == seq_lt(a@.skip(i as int), b@.skip(i as int)),
        decreases n - i,
    {
        let x = a[i];
        let y = b[i];
        proof {
            assert(a@.skip(i as int)[0] == x);
            assert(b@.skip(i as int)[0] == y);
            assert(a@.skip(i as int).drop_first() =~= a@.skip(i + 1));
            assert(b@.skip(i as int).drop_first() =~= b@.skip(i + 1));
        }
        if (x as u32) < (y as u32) {
            return true;
        }
        if x != y {
            return false;
        }
        i = i + 1;
    }
    i < m
}

/// The name of the snapshot stored in the directory entry `file_name`.
pub fn state_name_of_file(file_name: &str) -> (r: Option<String>)
    ensures
        match r {
            Some(s) => json_stem(file_name@) == Some(s@),
            None => json_stem(file_name@) is None,
        },
{
    let v = chars_of(file_name);
    if str_ends_with(file_name, ".json") && v.len() > 5 {
        let head = take_chars(v.as_slice(), v.len() - 5);
        let stem = string_from_chars(head.as_slice());
        Some(stem)
    } else {
        None
    }
}

/// The name-and-path view of a list of entries.
pub open spec fn entries_view(es: Seq<StateListEntry>) -> Seq<(Seq<char>, Seq<char>)> {
    es.map_values(|e: StateListEntry| entry_view(e))
}

/// Inserts an entry after every entry whose name does not sort after its own.
fn insert_by_name(out: &mut Vec<StateListEntry>, name: String, path: String)
    requires
        sorted_by_name(entries_view(old(out)@)),
    ensures
        entries_view(final(out)@).to_multiset() == entries_view(old(out)@).to_multiset().insert(
            (name@, path@),
        ),
        sorted_by_name(entries_view(final(out)@)),
{
    let nv = chars_of(name.as_str());
    let ghost old_view = entries_view(out@);
    let m = out.len();
    let mut p: usize = 0;
    while p < m
        invariant
            m == out@.len(),
            p <= m,
            nv@ == name@,
            forall|k: int| 0 <= k < p ==> !seq_lt(nv@, #[trigger] out@[k].name@),
        ensures
            p <= m,
            forall|k: int| 0 <= k < p ==> !seq_lt(nv@, #[trigger] out@[k].name@),
            p < m ==> seq_lt(nv@, out@[p as int].name@),
        decreases m - p,
    {
        let ov = chars_of(out[p].name.as_str());
        if chars_lt(nv.as_slice(), ov.as_slice()) {
            break;
        }
        p = p + 1;
    }
    let ghost new_pair = (name@, path@);
    out.insert(p, StateListEntry { name, path });
    proof {
        let nv2 = entries_view(out@);
        assert(nv2 =~= old_view.insert(p as int, new_pair));
        vstd::seq_lib::to_multiset_insert(old_view, p as int, new_pair);
        assert(p < m ==> seq_lt(new_pair.0, old_view[p as int].0));
        assert forall|a: int, b: int| 0 <= a < b < nv2.len() implies !seq_lt(
            #[trigger] nv2[b].0,
            #[trigger] nv2[a].0,
        ) by {
            if b < p {
                assert(old_view[b].0 == nv2[b].0);
                assert(old_view[a].0 == nv2[a].0);
            } else if b == p {
                assert(nv2[a].0 == out@[a].name@);
            } else if a == p {
                // new < old[p] <= old[b - 1]
                assert(nv2[b] == old_view[b - 1]);
                lemma_lt_asymmetric(new_pair.0, old_view[p as int].0);
                if seq_lt(old_view[b - 1].0, new_pair.0) {
                    lemma_lt_transitive(old_view[b - 1].0, new_pair.0, old_view[p as int].0);
                    if b - 1 > p {
                        assert(!seq_lt(old_view[b - 1].0, old_view[p as int].0));
                    }
                    lemma_lt_asymmetric(old_view[p as int].0, old_view[p as int].0);
                }
            } else if a < p {
                assert(nv2[b] == old_view[b - 1]);
                assert(nv2[a] == old_view[a]);
            } else {
                assert(nv2[b] == old_view[b - 1]);
                assert(nv2[a] == old_view[a - 1]);
            }
        }
    }
}

/// Entries for snapshot files whose name is not text: each is listed under
/// its displayed path, as name and as path.
pub open spec fn path_entries(paths: Seq<Seq<char>>) -> Seq<(Seq<char>, Seq<char>)> {
    paths.map_values(|p: Seq<char>| (p, p))
}

/// The saved snapshots among the directory entries `file_names` of `root`,
/// together with those in `unreadable_paths` (the displayed paths of ".json"
/// files whose stem is not text, listed under that path), sorted by name.
pub fn state_list_entries(root: &str, file_names: &[String], unreadable_paths: &[String]) -> (r:
    Vec<StateListEntry>)
    ensures
        entries_view(r@).to_multiset() == listed_states(
            root@,
            file_names@.map_values(|s: String| s@),
        ).to_multiset().add(path_entries(unreadable_paths@.map_values(|s: String| s@)).to_multiset()),
        sorted_by_name(entries_view(r@)),
{
    let ghost names = file_names@.map_values(|s: String| s@);
    let ghost extra = unreadable_paths@.map_values(|s: String| s@);
    let n = file_names.len();
    let mut out: Vec<StateListEntry> = Vec::new();
    let mut i: usize = 0;
    proof {
        assert(names.take(0) =~= Seq::<Seq<char>>::empty());
        assert(entries_view(out@) =~= Seq::<(Seq<char>, Seq<char>)>::empty());
    }
    while i < n
        invariant
            n == file_names@.len(),
            names == file_names@.map_values(|s: String| s@),
            i <= n,
            entries_view(out@).to_multiset() == listed_states(root@, names.take(i as int)).to_multiset(),
            sorted_by_name(entries_view(out@)),
        decreases n - i,
    {
        proof {
            assert(names.take(i + 1).drop_last() =~= names.take(i as int));
            assert(names.take(i + 1).last() == file_names@[i as int]@);
            let prev = listed_states(root@, names.take(i as int));
            match json_stem(names[i as int]) {
                Some(stem) => {
                    vstd::seq_lib::to_multiset_build(prev, (stem, path_join(root@, names[i as int])));
                },
                None => {},
            }
        }
        match state_name_of_file(file_names[i].as_str()) {
            Some(name) => {
                let path = join_path(root, file_names[i].as_str());
                insert_by_name(&mut out, name, path);
            },
            None => {},
        }
        i = i + 1;
    }
    proof {
        assert(names.take(n as int) =~= names);
    }
    let ghost listed = listed_states(root@, names).to_multiset();
    let k = unreadable_paths.len();
    let mut j: usize = 0;
    proof {
        assert(extra.take(0) =~= Seq::<Seq<char>>::empty());
        assert(path_entries(extra.take(0)) =~= Seq::<(Seq<char>, Seq<char>)>::empty());
        vstd::seq_lib::to_multiset_len(path_entries(extra.take(0)));
        vstd::multiset::lemma_multiset_empty_len(path_entries(extra.take(0)).to_multiset());
        assert(listed.add(vstd::multiset::Multiset::empty()) =~= listed);
    }
    while j < k
        invariant
            k == unreadable_paths@.len(),
            extra == unreadable_paths@.map_values(|s: String| s@),
            j <= k,
            entries_view(out@).to_multiset() == listed.add(path_entries(extra.take(j as int)).to_multiset()),
            sorted_by_name(entries_view(out@)),
        decreases k - j,
    {
        let ghost pv = unreadable_paths@[j as int]@;
        proof {
            assert(path_entries(extra.take(j + 1)) =~= path_entries(extra.take(j as int)).push((pv, pv)));
            vstd::seq_lib::to_multiset_build(path_entries(extra.take(j as int)), (pv, pv));
        }
        let name = unreadable_paths[j].clone();
        let path = unreadable_paths[j].clone();
        insert_by_name(&mut out, name, path);
        j = j + 1;
    }
    proof {
        assert(extra.take(k as int) =~= extra);
    }
    out
}

/// The script that restores one origin's storage: it embeds the origin's
/// saved state (as a JSON object), refuses to run on another origin, replaces
/// local and session storage with the saved entries, and reports the origin
/// and how many entries each storage holds afterwards.
pub open spec fn storage_restore_script_text(payload: Seq<char>) -> Seq<char> {
    "\n        (() => {\n            const state = "@ + payload + ";\n            if (window.location.origin !== state.origin) {\n                throw new Error(`Origin mismatch: expected ${state.origin}, got ${window.location.origin}`);\n            }\n\n            window.localStorage.clear();\n            for (const [key, value] of Object.entries(state.localStorage)) {\n                window.localStorage.setItem(key, value);\n            }\n\n            window.sessionStorage.clear();\n            for (const [key, value] of Object.entries(state.sessionStorage)) {\n                window.sessionStorage.setItem(key, value);\n            }\n\n            return {\n                origin: window.location.origin,\n                localStorage: window.localStorage.length,\n                sessionStorage: window.sessionStorage.length,\n            };\n        })()\n        "@
}

/// The restore script for an origin whose saved state serializes to `payload`.
pub fn storage_restore_script(payload: &str) -> (js: String)
    ensures
        js@ == storage_restore_script_text(payload@),
{
    let mut js = String::new();
    push_str(&mut js, "\n        (() => {\n            const state = ");
    push_str(&mut js, payload);
    push_str(&mut js, ";\n            if (window.location.origin !== state.origin) {\n                throw new Error(`Origin mismatch: expected ${state.origin}, got ${window.location.origin}`);\n            }\n\n            window.localStorage.clear();\n            for (const [key, value] of Object.entries(state.localStorage)) {\n                window.localStorage.setItem(key, value);\n            }\n\n            window.sessionStorage.clear();\n            for (const [key, value] of Object.entries(state.sessionStorage)) {\n                window.sessionStorage.setItem(key, value);\n            }\n\n            return {\n                origin: window.location.origin,\n                localStorage: window.localStorage.length,\n                sessionStorage: window.sessionStorage.length,\n            };\n        })()\n        ");
    assert(js@ =~= storage_restore_script_text(payload@));
    js
}

/// The restore script embeds the saved state as `state`, refuses to run on
/// another origin, clears local storage and refills it from the saved local
/// entries, clears session storage and refills it from the saved session
/// entries, and reports the origin and both storages' sizes.
pub proof fn lemma_restore_script_restores_each_storage(payload: Seq<char>)
    ensures
        starts_with_seq(
            storage_restore_script_text(payload),
            "\n        (() => {\n            const state = "@ + payload + ";"@,
        ),
        contains_seq(storage_restore_script_text(payload), "if (window.location.origin !== state.origin) {\n                throw new Error(`Origin mismatch: expected ${state.origin}, got ${window.location.origin}`);\n            }"@),
        contains_seq(storage_restore_script_text(payload), "window.localStorage.clear();\n            for (const [key, value] of Object.entries(state.localStorage)) {\n                window.localStorage.setItem(key, value);\n            }"@),
        contains_seq(storage_restore_script_text(payload), "window.sessionStorage.clear();\n            for (const [key, value] of Object.entries(state.sessionStorage)) {\n                window.sessionStorage.setItem(key, value);\n            }"@),
        contains_seq(storage_restore_script_text(payload), "return {\n                origin: window.location.origin,\n                localStorage: window.localStorage.length,\n                sessionStorage: window.sessionStorage.length,\n            };"@),
{
    let s = storage_restore_script_text(payload);
    let h = "\n        (() => {\n            const state = "@;
    let t = ";\n            if (window.location.origin !== state.origin) {\n                throw new Error(`Origin mismatch: expected ${state.origin}, got ${window.location.origin}`);\n            }\n\n            window.localStorage.clear();\n            for (const [key, value] of Object.entries(state.localStorage)) {\n                window.localStorage.setItem(key, value);\n            }\n\n            window.sessionStorage.clear();\n            for (const [key, value] of Object.entries(state.sessionStorage)) {\n                window.sessionStorage.setItem(key, value);\n            }\n\n            return {\n                origin: window.location.origin,\n                localStorage: window.localStorage.length,\n                sessionStorage: window.sessionStorage.length,\n            };\n        })()\n        "@;
    assert(s == h + payload + t);
    reveal_strlit("\n        (() => {\n            const state = ");
    reveal_strlit(";\n            if (window.location.origin !== state.origin) {\n                throw new Error(`Origin mismatch: expected ${state.origin}, got ${window.location.origin}`);\n            }\n\n            window.localStorage.clear();\n            for (const [key, value] of Object.entries(state.localStorage)) {\n                window.localStorage.setItem(key, value);\n            }\n\n            window.sessionStorage.clear();\n            for (const [key, value] of Object.entries(state.sessionStorage)) {\n                window.sessionStorage.setItem(key, value);\n            }\n\n            return {\n                origin: window.location.origin,\n                localStorage: window.localStorage.length,\n                sessionStorage: window.sessionStorage.length,\n            };\n        })()\n        ");
    reveal_strlit(";");
    let k: int = (h.len() + payload.len()) as int;
    assert(s.subrange(0, k + 1) =~= h + payload + ";"@);
    reveal_strlit("if (window.location.origin !== state.origin) {\n                throw new Error(`Origin mismatch: expected ${state.origin}, got ${window.location.origin}`);\n            }");
    assert(t.subrange(14, 183) =~= "if (window.location.origin !== state.origin) {\n                throw new Error(`Origin mismatch: expected ${state.origin}, got ${window.location.origin}`);\n            }"@);
    assert(s.subrange(k + 14, k + 183) =~= t.subrange(14, 183));
    assert(occurs_at(s, "if (window.location.origin !== state.origin) {\n                throw new Error(`Origin mismatch: expected ${state.origin}, got ${window.location.origin}`);\n            }"@, k + 14));
    reveal_strlit("window.localStorage.clear();\n            for (const [key, value] of Object.entries(state.localStorage)) {\n                window.localStorage.setItem(key, value);\n            }");
    assert(t.subrange(197, 373) =~= "window.localStorage.clear();\n            for (const [key, value] of Object.entries(state.localStorage)) {\n                window.localStorage.setItem(key, value);\n            }"@);
    assert(s.subrange(k + 197, k + 373) =~= t.subrange(197, 373));
    assert(occurs_at(s, "window.localStorage.clear();\n            for (const [key, value] of Object.entries(state.localStorage)) {\n                window.localStorage.setItem(key, value);\n            }"@, k + 197));
    reveal_strlit("window.sessionStorage.clear();\n            for (const [key, value] of Object.entries(state.sessionStorage)) {\n                window.sessionStorage.setItem(key, value);\n            }");
    assert(t.subrange(387, 569) =~= "window.sessionStorage.clear();\n            for (const [key, value] of Object.entries(state.sessionStorage)) {\n                window.sessionStorage.setItem(key, value);\n            }"@);
    assert(s.subrange(k + 387, k + 569) =~= t.subrange(387, 569));
    assert(occurs_at(s, "window.sessionStorage.clear();\n            for (const [key, value] of Object.entries(state.sessionStorage)) {\n                window.sessionStorage.setItem(key, value);\n            }"@, k + 387));
    reveal_strlit("return {\n                origin: window.location.origin,\n                localStorage: window.localStorage.length,\n                sessionStorage: window.sessionStorage.length,\n            };");
    assert(t.subrange(583, 774) =~= "return {\n                origin: window.location.origin,\n                localStorage: window.localStorage.length,\n                sessionStorage: window.sessionStorage.length,\n            };"@);
    assert(s.subrange(k + 583, k + 774) =~= t.subrange(583, 774));
    assert(occurs_at(s, "return {\n                origin: window.location.origin,\n                localStorage: window.localStorage.length,\n                sessionStorage: window.sessionStorage.length,\n            };"@, k + 583));
}

} // verus!
