//! The accessibility tree as shown to users. The text view has one line per
//! node that is neither ignored nor a bare wrapper ("none" or "generic"),
//! indented by how many shown ancestors it has, showing its role, its
//! (possibly shortened) name and a stable reference: `ref=dom:<backend DOM
//! node id>`, or `ref=ax:<accessibility node id>` when the node has no DOM
//! node. The normalized view lists the same nodes with the references of
//! their nearest shown ancestor and of the shown nodes directly below them.
use vstd::prelude::*;
use vstd::string::StringExecFns;
use crate::network::clone_opt;
use crate::text::{
    chars_of, opt_as_str, opt_string_view, opt_view, push_char, push_chars, push_signed_decimal,
    push_str, signed_decimal, str_eq, take_chars,
};

verus! {

/// Names longer than this many bytes (in UTF-8) are shortened.
pub const NAME_BYTE_LIMIT: usize = 80;

// ---------------------------------------------------------------------------
// Lengths in bytes
// ---------------------------------------------------------------------------

/// The number of bytes of `c` in UTF-8 (`char::len_utf8`).
pub open spec fn char_utf8_len(c: char) -> nat {
    let u = c as u32;
    if u < 0x80 {
        1
    } else if u < 0x800 {
        2
    } else if u < 0x10000 {
        3
    } else {
        4
    }
}

/// The number of bytes of `s` in UTF-8 (`str::len`).
pub open spec fn utf8_len(s: Seq<char>) -> nat
    decreases s.len(),
{
    if s.len() == 0 {
        0
    } else {
        char_utf8_len(s[0]) + utf8_len(s.drop_first())
    }
}

/// How many leading characters of `s` fit in `limit` bytes.
pub open spec fn fit_count(s: Seq<char>, limit: nat) -> nat
    decreases s.len(),
{
    if s.len() == 0 {
        0
    } else if char_utf8_len(s[0]) > limit {
        0
    } else {
        1 + fit_count(s.drop_first(), (limit - char_utf8_len(s[0])) as nat)
    }
}

/// A name as shown: one longer than 80 bytes is cut after the last whole
/// character within its first 80 bytes and followed by "…".
pub open spec fn shortened_name(name: Seq<char>) -> Seq<char> {
    if utf8_len(name) > 80 {
        name.take(fit_count(name, 80) as int) + "\u{2026}"@
    } else {
        name
    }
}

proof fn lemma_fit_count(s: Seq<char>, limit: nat)
    ensures
        fit_count(s, limit) <= s.len(),
        utf8_len(s.take(fit_count(s, limit) as int)) <= limit,
        fit_count(s, limit) < s.len() ==> utf8_len(s.take(fit_count(s, limit) as int + 1)) > limit,
    decreases s.len(),
{
    if s.len() == 0 {
        assert(s.take(0) =~= Seq::<char>::empty());
    } else if char_utf8_len(s[0]) > limit {
        assert(s.take(0) =~= Seq::<char>::empty());
        let t = s.take(1);
        assert(t[0] == s[0]);
        assert(t.drop_first().len() == 0);
    } else {
        let rest = s.drop_first();
        let l2 = (limit - char_utf8_len(s[0])) as nat;
        lemma_fit_count(rest, l2);
        let k: int = fit_count(rest, l2) as int;
        let t = s.take(k + 1);
        assert(t[0] == s[0]);
        assert(t.drop_first() =~= rest.take(k));
        if k + 1 < s.len() {
            let t2 = s.take(k + 2);
            assert(t2[0] == s[0]);
            assert(t2.drop_first() =~= rest.take(k + 1));
        }
    }
}

/// A long name is cut at the right place: the kept part is the longest
/// beginning of the name that fits in 80 bytes of UTF-8, so one more
/// character would not fit, and "…" follows it; a name of at most 80 bytes
/// is shown whole.
pub proof fn lemma_shortened_name_fits(name: Seq<char>)
    ensures
        utf8_len(name) <= 80 ==> shortened_name(name) == name,
        utf8_len(name) > 80 ==> exists|k: int|
            0 <= k < name.len() && #[trigger] shortened_name(name) == name.take(k) + "\u{2026}"@
                && utf8_len(name.take(k)) <= 80 && utf8_len(name.take(k + 1)) > 80,
{
    lemma_fit_count(name, 80);
    if utf8_len(name) > 80 {
        let k = fit_count(name, 80) as int;
        if k == name.len() {
            assert(name.take(k) =~= name);
        }
        assert(shortened_name(name) == name.take(k) + "\u{2026}"@);
    }
}

fn char_len(c: char) -> (n: usize)
    ensures
        n == char_utf8_len(c),
{
    let u = c as u32;
    if u < 0x80 {
        1
    } else if u < 0x800 {
        2
    } else if u < 0x10000 {
        3
    } else {
        4
    }
}

/// Whether `v` takes more than `limit` bytes in UTF-8.
fn exceeds_bytes(v: &[char], limit: usize) -> (b: bool)
    ensures
        b == (utf8_len(v@) > limit),
{
    let n = v.len();
    let mut used: usize = 0;
    let mut i: usize = 0;
    proof {
        assert(v@.skip(0) =~= v@);
    }
    while i < n
        invariant
            n == v@.len(),
            i <= n,
            used <= limit,
            utf8_len(v@) == used + utf8_len(v@.skip(i as int)),
        decreases n - i,
    {
        let cl = char_len(v[i]);
        proof {
            assert(v@.skip(i as int)[0] == v@[i as int]);
            assert(v@.skip(i as int).drop_first() =~= v@.skip(i + 1));
        }
        if cl > limit - used {
            return true;
        }
        used = used + cl;
        i = i + 1;
    }
    proof {
        assert(v@.skip(n as int) =~= Seq::<char>::empty());
    }
    false
}

/// How many leading characters of `v` fit in `limit` bytes.
fn fitting_chars(v: &[char], limit: usize) -> (k: usize)
    ensures
        k == fit_count(v@, limit as nat),
        k <= v@.len(),
{
    let n = v.len();
    let mut used: usize = 0;
    let mut i: usize = 0;
    proof {
        assert(v@.skip(0) =~= v@);
    }
    while i < n
        invariant
            n == v@.len(),
            i <= n,
            used <= limit,
            fit_count(v@, limit as nat) == i + fit_count(v@.skip(i as int), (limit - used) as nat),
        decreases n - i,
    {
        let cl = char_len(v[i]);
        proof {
            assert(v@.skip(i as int)[0] == v@[i as int]);
            assert(v@.skip(i as int).drop_first() =~= v@.skip(i + 1));
        }
        if cl > limit - used {
            return i;
        }
        used = used + cl;
        i = i + 1;
    }
    proof {
        assert(v@.skip(n as int) =~= Seq::<char>::empty());
    }
    i
}

// ---------------------------------------------------------------------------
// One line
// ---------------------------------------------------------------------------

/// A node is shown unless it is ignored or a bare wrapper.
pub open spec fn kept_node(ignored: bool, role: Seq<char>) -> bool {
    !ignored && role != "none"@ && role != "generic"@
}

/// The stable reference of a node.
pub open spec fn node_ref_spec(backend_dom_node_id: Option<i64>, node_id: Seq<char>) -> Seq<char> {
    match backend_dom_node_id {
        Some(b) => "ref=dom:"@ + signed_decimal(b as int),
        None => "ref=ax:"@ + node_id,
    }
}

/// Two spaces per level.
pub open spec fn indent(depth: nat) -> Seq<char>
    decreases depth,
{
    if depth == 0 {
        Seq::empty()
    } else {
        indent((depth - 1) as nat) + "  "@
    }
}

/// The line shown for a node at `depth`: `None` for a skipped node;
/// otherwise the indentation, "[role]", the shortened name when there is
/// one, and the node's reference, separated by single spaces.
pub open spec fn snapshot_line_spec(
    ignored: bool,
    role: Seq<char>,
    name: Seq<char>,
    backend_dom_node_id: Option<i64>,
    node_id: Seq<char>,
    depth: nat,
) -> Option<Seq<char>> {
    if !kept_node(ignored, role) {
        None
    } else if name.len() == 0 {
        Some(indent(depth) + "["@ + role + "] "@ + node_ref_spec(backend_dom_node_id, node_id))
    } else {
        Some(
            indent(depth) + "["@ + role + "] "@ + shortened_name(name) + " "@ + node_ref_spec(
                backend_dom_node_id,
                node_id,
            ),
        )
    }
}

/// The role of a node, "?" when it has none.
pub open spec fn role_or_default(role: Option<Seq<char>>) -> Seq<char> {
    match role {
        Some(r) => r,
        None => "?"@,
    }
}

/// The name of a node, empty when it has none.
pub open spec fn name_or_default(name: Option<Seq<char>>) -> Seq<char> {
    match name {
        Some(n) => n,
        None => Seq::empty(),
    }
}

/// Appends the stable reference of a node.
pub fn push_node_ref(out: &mut String, backend_dom_node_id: Option<i64>, node_id: &str)
    ensures
        final(out)@ == old(out)@ + node_ref_spec(backend_dom_node_id, node_id@),
{
    match backend_dom_node_id {
        Some(b) => {
            push_str(out, "ref=dom:");
            push_signed_decimal(out, b);
        },
        None => {
            push_str(out, "ref=ax:");
            push_str(out, node_id);
        },
    }
    assert(final(out)@ =~= old(out)@ + node_ref_spec(backend_dom_node_id, node_id@));
}

/// The line shown for an accessibility node with the given ignored flag,
/// role and name (each `None` when the node has no string value for it),
/// DOM and accessibility ids, and depth among shown nodes.
pub fn snapshot_line(
    ignored: bool,
    role: Option<&str>,
    name: Option<&str>,
    backend_dom_node_id: Option<i64>,
    node_id: &str,
    depth: usize,
) -> (line: Option<String>)
    ensures
        match line {
            Some(l) => snapshot_line_spec(
                ignored,
                role_or_default(opt_view(role)),
                name_or_default(opt_view(name)),
                backend_dom_node_id,
                node_id@,
                depth as nat,
            ) == Some(l@),
            None => snapshot_line_spec(
                ignored,
                role_or_default(opt_view(role)),
                name_or_default(opt_view(name)),
                backend_dom_node_id,
                node_id@,
                depth as nat,
            ) is None,
        },
{
    if ignored {
        return None;
    }
    let role: &str = match role {
        Some(r) => r,
        None => "?",
    };
    if str_eq(role, "none") || str_eq(role, "generic") {
        return None;
    }
    let name_chars: Vec<char> = match name {
        Some(n) => chars_of(n),
        None => Vec::new(),
    };
    let ghost nm = name_or_default(opt_view(name));
    assert(name_chars@ == nm);
    let mut line = String::new();
    let mut d: usize = 0;
    while d < depth
        invariant
            d <= depth,
            line@ == indent(d as nat),
        decreases depth - d,
    {
        push_str(&mut line, "  ");
        d = d + 1;
    }
    push_str(&mut line, "[");
    push_str(&mut line, role);
    push_str(&mut line, "] ");
    let ghost head_part = line@;
    assert(head_part == indent(depth as nat) + "["@ + role@ + "] "@);
    if name_chars.len() > 0 {
        if exceeds_bytes(name_chars.as_slice(), NAME_BYTE_LIMIT) {
            let k = fitting_chars(name_chars.as_slice(), NAME_BYTE_LIMIT);
            let head = take_chars(name_chars.as_slice(), k);
            push_chars(&mut line, head.as_slice());
            push_str(&mut line, "\u{2026}");
            assert(line@ =~= head_part + shortened_name(nm));
        } else {
            push_chars(&mut line, name_chars.as_slice());
            assert(line@ =~= head_part + shortened_name(nm));
        }
        push_char(&mut line, ' ');
        proof {
            reveal_strlit(" ");
            assert(line@ =~= head_part + shortened_name(nm) + " "@);
        }
        push_node_ref(&mut line, backend_dom_node_id, node_id);
        assert(line@ =~= head_part + shortened_name(nm) + " "@ + node_ref_spec(
            backend_dom_node_id,
            node_id@,
        ));
    } else {
        push_node_ref(&mut line, backend_dom_node_id, node_id);
        assert(line@ =~= head_part + node_ref_spec(backend_dom_node_id, node_id@));
    }
    Some(line)
}

/// Every shown line ends with the node's stable reference, and exactly the
/// kept nodes are shown.
pub proof fn lemma_line_has_ref(
    ignored: bool,
    role: Seq<char>,
    name: Seq<char>,
    backend_dom_node_id: Option<i64>,
    node_id: Seq<char>,
    depth: nat,
)
    ensures
        snapshot_line_spec(ignored, role, name, backend_dom_node_id, node_id, depth) is Some
            <==> kept_node(ignored, role),
        snapshot_line_spec(ignored, role, name, backend_dom_node_id, node_id, depth) matches Some(
            l,
        ) ==> {
            let r = node_ref_spec(backend_dom_node_id, node_id);
            &&& r.len() <= l.len()
            &&& l.subrange(l.len() - r.len(), l.len() as int) == r
        },
{
    if kept_node(ignored, role) {
        let l = snapshot_line_spec(ignored, role, name, backend_dom_node_id, node_id, depth)->0;
        let r = node_ref_spec(backend_dom_node_id, node_id);
        assert(l.subrange(l.len() - r.len(), l.len() as int) =~= r);
    }
}

// ---------------------------------------------------------------------------
// The tree
// ---------------------------------------------------------------------------

/// What the tree view reads of an accessibility node.
#[derive(Debug)]
pub struct AxNodeInfo {
    pub node_id: String,
    pub parent_id: Option<String>,
    pub ignored: bool,
    pub role: Option<String>,
    pub name: Option<String>,
    pub backend_dom_node_id: Option<i64>,
}

/// The last node before position `k` with the id `id`, or -1.
pub open spec fn last_with_id(nodes: Seq<AxNodeInfo>, id: Seq<char>, k: int) -> int
    decreases k,
{
    if k <= 0 {
        -1
    } else if nodes[k - 1].node_id@ == id {
        k - 1
    } else {
        last_with_id(nodes, id, k - 1)
    }
}

/// The position of node `i`'s parent: the last earlier node with the parent
/// id, or -1 when it has none (nodes come parents first).
pub open spec fn parent_index(nodes: Seq<AxNodeInfo>, i: int) -> int {
    match nodes[i].parent_id {
        Some(p) => last_with_id(nodes, p@, i),
        None => -1,
    }
}

/// Whether node `i` is shown.
pub open spec fn node_kept(nodes: Seq<AxNodeInfo>, i: int) -> bool {
    kept_node(nodes[i].ignored, role_or_default(opt_string_view(nodes[i].role)))
}

/// The depth of node `i` among shown nodes: the number of shown nodes on
/// its chain of parents, so that skipped wrappers do not indent.
pub open spec fn node_depth(nodes: Seq<AxNodeInfo>, i: int) -> nat
    decreases i,
{
    let p = parent_index(nodes, i);
    if 0 <= p < i {
        node_depth(nodes, p) + if node_kept(nodes, p) {
            1nat
        } else {
            0nat
        }
    } else {
        0
    }
}

/// The line of node `i`, if it is shown.
pub open spec fn node_line(nodes: Seq<AxNodeInfo>, i: int) -> Option<Seq<char>> {
    snapshot_line_spec(
        nodes[i].ignored,
        role_or_default(opt_string_view(nodes[i].role)),
        name_or_default(opt_string_view(nodes[i].name)),
        nodes[i].backend_dom_node_id,
        nodes[i].node_id@,
        node_depth(nodes, i),
    )
}

/// The lines of the first `k` nodes, in order.
pub open spec fn snapshot_text(nodes: Seq<AxNodeInfo>, k: int) -> Seq<Seq<char>>
    decreases k,
{
    if k <= 0 {
        Seq::empty()
    } else {
        let prev = snapshot_text(nodes, k - 1);
        match node_line(nodes, k - 1) {
            Some(l) => prev.push(l),
            None => prev,
        }
    }
}

proof fn lemma_last_with_id_bounds(nodes: Seq<AxNodeInfo>, id: Seq<char>, k: int)
    ensures
        -1 <= last_with_id(nodes, id, k) < k || (k <= 0 && last_with_id(nodes, id, k) == -1),
    decreases k,
{
    if k > 0 {
        lemma_last_with_id_bounds(nodes, id, k - 1);
    }
}

/// A node's depth never exceeds its position.
pub proof fn lemma_depth_bound(nodes: Seq<AxNodeInfo>, i: int)
    requires
        0 <= i,
    ensures
        node_depth(nodes, i) <= i,
    decreases i,
{
    let p = parent_index(nodes, i);
    if 0 <= p < i {
        lemma_depth_bound(nodes, p);
    }
}

/// Tree shape: a node whose parent is shown sits one level below it; a node
/// whose parent is skipped sits on its parent's level; a node without a
/// known earlier parent is at the top.
pub proof fn lemma_depth_follows_parent(nodes: Seq<AxNodeInfo>, i: int)
    requires
        0 <= i < nodes.len(),
    ensures
        parent_index(nodes, i) == -1 ==> node_depth(nodes, i) == 0,
        parent_index(nodes, i) != -1 ==> {
            let p = parent_index(nodes, i);
            &&& 0 <= p < i
            &&& nodes[p].node_id@ == nodes[i].parent_id->0@
            &&& node_depth(nodes, i) == node_depth(nodes, p) + if node_kept(nodes, p) {
                1nat
            } else {
                0nat
            }
        },
{
    match nodes[i].parent_id {
        Some(pid) => {
            lemma_last_with_id_bounds(nodes, pid@, i);
            lemma_last_with_id_found(nodes, pid@, i);
        },
        None => {},
    }
}

proof fn lemma_last_with_id_found(nodes: Seq<AxNodeInfo>, id: Seq<char>, k: int)
    ensures
        last_with_id(nodes, id, k) != -1 ==> nodes[last_with_id(nodes, id, k)].node_id@ == id,
    decreases k,
{
    if k > 0 {
        lemma_last_with_id_found(nodes, id, k - 1);
    }
}

fn chars_equal(a: &[char], b: &[char]) -> (r: bool)
    ensures
        r == (a@ == b@),
{
    if a.len() != b.len() {
        return false;
    }
    let n = a.len();
    let mut i: usize = 0;
    while i < n
        invariant
            n == a@.len(),
            n == b@.len(),
            i <= n,
            forall|k: int| 0 <= k < i ==> a@[k] == b@[k],
        decreases n - i,
    {
        if a[i] != b[i] {
            return false;
        }
        i = i + 1;
    }
    assert(a@ =~= b@);
    true
}

/// The position of the last node before `i` whose id is `id`, if any.
fn last_index_with_id(nodes: &[AxNodeInfo], ids: &Vec<Vec<char>>, id: &[char], i: usize) -> (r:
    Option<usize>)
    requires
        i <= ids@.len(),
        i <= nodes@.len(),
        forall|k: int| 0 <= k < i ==> (#[trigger] ids@[k])@ == nodes@[k].node_id@,
    ensures
        match r {
            Some(p) => p < i && p as int == last_with_id(nodes@, id@, i as int),
            None => last_with_id(nodes@, id@, i as int) == -1,
        },
{
    let mut j: usize = i;
    while j > 0
        invariant
            j <= i,
            i <= ids@.len(),
            i <= nodes@.len(),
            forall|k: int| 0 <= k < i ==> (#[trigger] ids@[k])@ == nodes@[k].node_id@,
            last_with_id(nodes@, id@, i as int) == last_with_id(nodes@, id@, j as int),
        decreases j,
    {
        if chars_equal(ids[j - 1].as_slice(), id) {
            return Some(j - 1);
        }
        j = j - 1;
    }
    None
}

/// The depth of each node among shown nodes.
pub fn snapshot_depths(nodes: &[AxNodeInfo]) -> (d: Vec<usize>)
    ensures
        d@.len() == nodes@.len(),
        forall|i: int| 0 <= i < nodes@.len() ==> d@[i] == node_depth(nodes@, i),
{
    let n = nodes.len();
    let mut ids: Vec<Vec<char>> = Vec::new();
    let mut d: Vec<usize> = Vec::new();
    let mut i: usize = 0;
    while i < n
        invariant
            n == nodes@.len(),
            i <= n,
            ids@.len() == i,
            d@.len() == i,
            forall|k: int| 0 <= k < i ==> (#[trigger] ids@[k])@ == nodes@[k].node_id@,
            forall|k: int| 0 <= k < i ==> #[trigger] d@[k] == node_depth(nodes@, k),
            forall|k: int| 0 <= k < i ==> d@[k] <= k,
        decreases n - i,
    {
        let parent: Option<usize> = match &nodes[i].parent_id {
            Some(pid) => {
                let pv = chars_of(pid.as_str());
                last_index_with_id(nodes, &ids, pv.as_slice(), i)
            },
            None => None,
        };
        assert(match parent {
            Some(p) => p < i && p as int == parent_index(nodes@, i as int),
            None => parent_index(nodes@, i as int) == -1,
        });
        proof {
            lemma_depth_bound(nodes@, i as int);
        }
        let depth: usize = match parent {
            Some(p) => {
                let kept = node_is_kept(&nodes[p]);
                assert(kept == node_kept(nodes@, p as int));
                if kept {
                    d[p] + 1
                } else {
                    d[p]
                }
            },
            None => 0,
        };
        ids.push(chars_of(nodes[i].node_id.as_str()));
        d.push(depth);
        i = i + 1;
    }
    d
}

/// The lines of the tree view, in node order: one for each shown node.
pub fn snapshot_lines(nodes: &[AxNodeInfo]) -> (lines: Vec<String>)
    ensures
        lines@.map_values(|l: String| l@) == snapshot_text(nodes@, nodes@.len() as int),
{
    let depths = snapshot_depths(nodes);
    let n = nodes.len();
    let mut lines: Vec<String> = Vec::new();
    let mut i: usize = 0;
    while i < n
        invariant
            n == nodes@.len(),
            i <= n,
            depths@.len() == n,
            forall|k: int| 0 <= k < n ==> depths@[k] == node_depth(nodes@, k),
            lines@.map_values(|l: String| l@) == snapshot_text(nodes@, i as int),
        decreases n - i,
    {
        let node = &nodes[i];
        let ghost before = lines@;
        match snapshot_line(
            node.ignored,
            opt_as_str(&node.role),
            opt_as_str(&node.name),
            node.backend_dom_node_id,
            node.node_id.as_str(),
            depths[i],
        ) {
            Some(l) => {
                lines.push(l);
                assert(lines@.map_values(|l: String| l@) =~= before.map_values(|l: String| l@).push(
                    node_line(nodes@, i as int)->0,
                ));
            },
            None => {},
        }
        i = i + 1;
    }
    lines
}

// ---------------------------------------------------------------------------
// The normalized tree
// ---------------------------------------------------------------------------

/// The nearest shown ancestor of node `i`, or -1 when it has none.
pub open spec fn shown_parent(nodes: Seq<AxNodeInfo>, i: int) -> int
    decreases i,
{
    let p = parent_index(nodes, i);
    if 0 <= p < i {
        if node_kept(nodes, p) {
            p
        } else {
            shown_parent(nodes, p)
        }
    } else {
        -1
    }
}

/// The stable reference of node `i`.
pub open spec fn ref_of(nodes: Seq<AxNodeInfo>, i: int) -> Seq<char> {
    node_ref_spec(nodes[i].backend_dom_node_id, nodes[i].node_id@)
}

/// The references of the shown nodes among the first `k` whose nearest shown
/// ancestor is node `p`, in node order.
pub open spec fn child_refs(nodes: Seq<AxNodeInfo>, p: int, k: int) -> Seq<Seq<char>>
    decreases k,
{
    if k <= 0 {
        Seq::empty()
    } else {
        let prev = child_refs(nodes, p, k - 1);
        if node_kept(nodes, k - 1) && shown_parent(nodes, k - 1) == p {
            prev.push(ref_of(nodes, k - 1))
        } else {
            prev
        }
    }
}

/// A shown node of the normalized tree: its reference, role and name as the
/// browser gave them, depth among shown nodes, the reference of its nearest
/// shown ancestor, and those of the shown nodes directly below it.
#[derive(Debug)]
pub struct SnapshotNode {
    pub node_ref: String,
    pub role: Option<String>,
    pub name: Option<String>,
    pub depth: usize,
    pub parent_ref: Option<String>,
    pub child_refs: Vec<String>,
}

/// What a normalized node holds, as plain values.
pub open spec fn snapshot_node_view(n: SnapshotNode) -> (
    Seq<char>,
    Option<Seq<char>>,
    Option<Seq<char>>,
    nat,
    Option<Seq<char>>,
    Seq<Seq<char>>,
) {
    (
        n.node_ref@,
        opt_string_view(n.role),
        opt_string_view(n.name),
        n.depth as nat,
        opt_string_view(n.parent_ref),
        n.child_refs@.map_values(|r: String| r@),
    )
}

/// The normalized form of node `i`.
pub open spec fn normalized_node(nodes: Seq<AxNodeInfo>, i: int) -> (
    Seq<char>,
    Option<Seq<char>>,
    Option<Seq<char>>,
    nat,
    Option<Seq<char>>,
    Seq<Seq<char>>,
) {
    (
        ref_of(nodes, i),
        opt_string_view(nodes[i].role),
        opt_string_view(nodes[i].name),
        node_depth(nodes, i),
        if shown_parent(nodes, i) == -1 {
            None
        } else {
            Some(ref_of(nodes, shown_parent(nodes, i)))
        },
        child_refs(nodes, i, nodes.len() as int),
    )
}

/// The normalized forms of the shown nodes among the first `k`, in order.
pub open spec fn normalized_tree(nodes: Seq<AxNodeInfo>, k: int) -> Seq<
    (Seq<char>, Option<Seq<char>>, Option<Seq<char>>, nat, Option<Seq<char>>, Seq<Seq<char>>),
>
    decreases k,
{
    if k <= 0 {
        Seq::empty()
    } else {
        let prev = normalized_tree(nodes, k - 1);
        if node_kept(nodes, k - 1) {
            prev.push(normalized_node(nodes, k - 1))
        } else {
            prev
        }
    }
}

/// A node's nearest shown ancestor comes before it and is shown.
pub proof fn lemma_shown_parent_is_shown(nodes: Seq<AxNodeInfo>, i: int)
    requires
        0 <= i < nodes.len(),
    ensures
        shown_parent(nodes, i) == -1 || (0 <= shown_parent(nodes, i) < i && node_kept(
            nodes,
            shown_parent(nodes, i),
        )),
    decreases i,
{
    lemma_depth_follows_parent(nodes, i);
    let p = parent_index(nodes, i);
    if 0 <= p < i && !node_kept(nodes, p) {
        lemma_shown_parent_is_shown(nodes, p);
    }
}

/// The indentation of the tree view and the parent references agree: a node
/// with no shown ancestor is at the top, and any other sits one level below
/// its nearest shown ancestor.
pub proof fn lemma_depth_is_shown_parent_depth(nodes: Seq<AxNodeInfo>, i: int)
    requires
        0 <= i < nodes.len(),
    ensures
        node_depth(nodes, i) == if shown_parent(nodes, i) == -1 {
            0
        } else {
            node_depth(nodes, shown_parent(nodes, i)) + 1
        },
    decreases i,
{
    lemma_depth_follows_parent(nodes, i);
    let p = parent_index(nodes, i);
    if 0 <= p < i && !node_kept(nodes, p) {
        lemma_depth_is_shown_parent_depth(nodes, p);
    }
}

/// Parent and child references agree: a shown node with a shown ancestor is
/// listed among that ancestor's children.
pub proof fn lemma_child_listed_under_parent(nodes: Seq<AxNodeInfo>, i: int)
    requires
        0 <= i < nodes.len(),
        node_kept(nodes, i),
        shown_parent(nodes, i) != -1,
    ensures
        child_refs(nodes, shown_parent(nodes, i), nodes.len() as int).contains(ref_of(nodes, i)),
{
    lemma_child_refs_contains(nodes, shown_parent(nodes, i), i, nodes.len() as int);
}

proof fn lemma_child_refs_contains(nodes: Seq<AxNodeInfo>, p: int, j: int, k: int)
    requires
        0 <= j < k,
        node_kept(nodes, j),
        shown_parent(nodes, j) == p,
    ensures
        child_refs(nodes, p, k).contains(ref_of(nodes, j)),
    decreases k,
{
    let c = child_refs(nodes, p, k);
    if j == k - 1 {
        assert(c[c.len() - 1] == ref_of(nodes, j));
    } else {
        lemma_child_refs_contains(nodes, p, j, k - 1);
        let prev = child_refs(nodes, p, k - 1);
        let w = choose|x: int| 0 <= x < prev.len() && prev[x] == ref_of(nodes, j);
        assert(c[w] == ref_of(nodes, j));
    }
}

/// Whether a node is shown.
fn node_is_kept(node: &AxNodeInfo) -> (b: bool)
    ensures
        b == kept_node(node.ignored, role_or_default(opt_string_view(node.role))),
{
    match &node.role {
        Some(r) => !node.ignored && !str_eq(r.as_str(), "none") && !str_eq(r.as_str(), "generic"),
        None => {
            proof {
                reveal_strlit("?");
                reveal_strlit("none");
                reveal_strlit("generic");
                assert("?"@.len() != "none"@.len());
                assert("?"@.len() != "generic"@.len());
            }
            !node.ignored
        },
    }
}

/// The stable reference of a node, as text.
fn node_ref_text(node: &AxNodeInfo) -> (r: String)
    ensures
        r@ == node_ref_spec(node.backend_dom_node_id, node.node_id@),
{
    let mut r = String::new();
    push_node_ref(&mut r, node.backend_dom_node_id, node.node_id.as_str());
    assert(r@ =~= node_ref_spec(node.backend_dom_node_id, node.node_id@));
    r
}

/// The position of each node's nearest shown ancestor.
pub fn shown_parents(nodes: &[AxNodeInfo]) -> (sp: Vec<Option<usize>>)
    ensures
        sp@.len() == nodes@.len(),
        forall|i: int|
            0 <= i < nodes@.len() ==> match #[trigger] sp@[i] {
                Some(p) => p < i && p as int == shown_parent(nodes@, i),
                None => shown_parent(nodes@, i) == -1,
            },
{
    let n = nodes.len();
    let mut ids: Vec<Vec<char>> = Vec::new();
    let mut sp: Vec<Option<usize>> = Vec::new();
    let mut i: usize = 0;
    while i < n
        invariant
            n == nodes@.len(),
            i <= n,
            ids@.len() == i,
            sp@.len() == i,
            forall|k: int| 0 <= k < i ==> (#[trigger] ids@[k])@ == nodes@[k].node_id@,
            forall|k: int|
                0 <= k < i ==> match #[trigger] sp@[k] {
                    Some(p) => p < k && p as int == shown_parent(nodes@, k),
                    None => shown_parent(nodes@, k) == -1,
                },
        decreases n - i,
    {
        let parent: Option<usize> = match &nodes[i].parent_id {
            Some(pid) => {
                let pv = chars_of(pid.as_str());
                last_index_with_id(nodes, &ids, pv.as_slice(), i)
            },
            None => None,
        };
        assert(match parent {
            Some(p) => p < i && p as int == parent_index(nodes@, i as int),
            None => parent_index(nodes@, i as int) == -1,
        });
        let shown: Option<usize> = match parent {
            Some(p) => {
                if node_is_kept(&nodes[p]) {
                    Some(p)
                } else {
                    sp[p]
                }
            },
            None => None,
        };
        ids.push(chars_of(nodes[i].node_id.as_str()));
        sp.push(shown);
        i = i + 1;
    }
    sp
}

/// The normalized tree: one entry for each shown node, in node order, with
/// references that tie each node to its nearest shown ancestor and to the
/// shown nodes directly below it.
pub fn snapshot_tree(nodes: &[AxNodeInfo]) -> (tree: Vec<SnapshotNode>)
    ensures
        tree@.map_values(|t: SnapshotNode| snapshot_node_view(t)) == normalized_tree(
            nodes@,
            nodes@.len() as int,
        ),
{
    let n = nodes.len();
    let sp = shown_parents(nodes);
    let depths = snapshot_depths(nodes);
    let mut tree: Vec<SnapshotNode> = Vec::new();
    let mut i: usize = 0;
    while i < n
        invariant
            n == nodes@.len(),
            i <= n,
            sp@.len() == n,
            depths@.len() == n,
            forall|k: int|
                0 <= k < n ==> match #[trigger] sp@[k] {
                    Some(p) => p < k && p as int == shown_parent(nodes@, k),
                    None => shown_parent(nodes@, k) == -1,
                },
            forall|k: int| 0 <= k < n ==> depths@[k] == node_depth(nodes@, k),
            tree@.map_values(|t: SnapshotNode| snapshot_node_view(t)) == normalized_tree(
                nodes@,
                i as int,
            ),
        decreases n - i,
    {
        if node_is_kept(&nodes[i]) {
            let mut children: Vec<String> = Vec::new();
            let mut j: usize = 0;
            while j < n
                invariant
                    n == nodes@.len(),
                    i < n,
                    j <= n,
                    sp@.len() == n,
                    forall|k: int|
                        0 <= k < n ==> match #[trigger] sp@[k] {
                            Some(p) => p < k && p as int == shown_parent(nodes@, k),
                            None => shown_parent(nodes@, k) == -1,
                        },
                    children@.map_values(|r: String| r@) == child_refs(nodes@, i as int, j as int),
                decreases n - j,
            {
                let ghost before = children@;
                let below = match sp[j] {
                    Some(p) => p == i,
                    None => false,
                };
                if below && node_is_kept(&nodes[j]) {
                    children.push(node_ref_text(&nodes[j]));
                    assert(children@.map_values(|r: String| r@) =~= before.map_values(
                        |r: String| r@,
                    ).push(ref_of(nodes@, j as int)));
                }
                j = j + 1;
            }
            let parent_ref = match sp[i] {
                Some(p) => Some(node_ref_text(&nodes[p])),
                None => None,
            };
            let ghost before = tree@;
            tree.push(
                SnapshotNode {
                    node_ref: node_ref_text(&nodes[i]),
                    role: clone_opt(&nodes[i].role),
                    name: clone_opt(&nodes[i].name),
                    depth: depths[i],
                    parent_ref,
                    child_refs: children,
                },
            );
            assert(tree@.map_values(|t: SnapshotNode| snapshot_node_view(t)) =~= before.map_values(
                |t: SnapshotNode| snapshot_node_view(t),
            ).push(normalized_node(nodes@, i as int)));
        }
        i = i + 1;
    }
    tree
}

} // verus!
