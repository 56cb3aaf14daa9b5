//! Bulk creation: a schema of folders and typed variables, whose keys may carry a range
//! ("name[1:10]") that stands for numbered copies, is walked into the groups of items to
//! add under each folder.
use vstd::prelude::*;

use crate::namespace::{item_type_code, var_data_type_code, ItemMeta, ItemType, VarDataType};
use crate::parser::{
    clone_count, clone_counting_fits, clone_name, parse_repeated_name, repeated_name_range, spec_clone_name,
};
use crate::text::{ascii_lower_seq, chars_of, lower_chars, push_chars, string_of, string_push};
use crate::variable::AddPlan;

verus! {

/// A node of a bulk schema.
pub enum BulkNode {
    /// A folder with its children.
    Folder(Vec<BulkEntry>),
    /// A variable with the name of its data type.
    Variable(String),
    /// A node with no content; nothing is created for it.
    Empty,
}

/// A key of a bulk schema with its node.
pub struct BulkEntry {
    pub key: String,
    pub node: BulkNode,
}

/// The names a schema key stands for: its numbered copies when it ends in a range,
/// otherwise the key itself.
pub open spec fn key_names(key: Seq<char>) -> Seq<Seq<char>> {
    match repeated_name_range(key) {
        Some((k, (a, b, c))) => spec_clone_name(key.take(k), a, b, c),
        None => seq![key],
    }
}

/// Whether the range of a key can be counted out within `usize`.
pub open spec fn key_fits(key: Seq<char>) -> bool {
    match repeated_name_range(key) {
        Some((k, (a, b, c))) => clone_counting_fits(a, b, c),
        None => true,
    }
}

/// Whether the ranges of the first `n` entries of `entries`, and of everything below
/// them, can be counted out.
pub open spec fn fits_upto(entries: Seq<BulkEntry>, n: int) -> bool
    decreases entries, n,
{
    if n <= 0 || n > entries.len() {
        true
    } else {
        entry_fits(entries[n - 1]) && fits_upto(entries, n - 1)
    }
}

/// Whether the ranges of `e` and of everything below it can be counted out.
pub open spec fn entry_fits(e: BulkEntry) -> bool
    decreases e, 0int,
{
    key_fits(e.key@) && match e.node {
        BulkNode::Folder(children) => {
            proof {
                assert(decreases_to!(e => e.node));
            }
            fits_upto(children@, children@.len() as int)
        },
        _ => true,
    }
}

proof fn lemma_fits_upto(entries: Seq<BulkEntry>, n: int, i: int)
    requires
        fits_upto(entries, n),
        0 <= i < n <= entries.len(),
    ensures
        entry_fits(entries[i]),
    decreases n,
{
    if i < n - 1 {
        lemma_fits_upto(entries, n - 1, i);
    }
}

fn counting_fits(start: Option<usize>, stop: Option<usize>, step: Option<usize>) -> (r: bool)
    ensures
        r == clone_counting_fits(start, stop, step),
{
    match stop {
        None => true,
        Some(end) => {
            let st: usize = match start {
                Some(s) => s,
                None => 1,
            };
            let sp: usize = match step {
                Some(p) => p,
                None => 1,
            };
            if sp == 0 {
                return true;
            }
            if st > end {
                proof {
                    assert(clone_count(st as nat, end as nat, sp as nat) == 0);
                    assert(0 * sp == 0) by (nonlinear_arith);
                }
                return true;
            }
            let q: usize = (end - st) / sp;
            proof {
                assert(q * sp <= end - st) by (nonlinear_arith)
                    requires
                        q == (end - st) / (sp as int),
                        sp > 0,
                        end >= st,
                ;
                assert((q + 1) * sp == q * sp + sp) by (nonlinear_arith);
            }
            let total: u128 = st as u128 + (q as u128 + 1) * (sp as u128);
            total <= usize::MAX as u128
        },
    }
}

fn key_fits_exec(key: &str) -> (r: bool)
    ensures
        r == key_fits(key@),
{
    let mut rest: &str = key;
    let (a, b, c) = parse_repeated_name(&mut rest);
    counting_fits(a, b, c)
}

fn entries_fit_exec(entries: &Vec<BulkEntry>) -> (r: bool)
    ensures
        r == fits_upto(entries@, entries@.len() as int),
    decreases entries@, 1int,
{
    let mut i: usize = 0;
    let mut ok = true;
    while i < entries.len()
        invariant
            i <= entries.len(),
            ok == fits_upto(entries@, i as int),
        decreases entries.len() - i,
    {
        let e_ok = entry_fits_exec(&entries[i]);
        ok = e_ok && ok;
        i += 1;
    }
    ok
}

fn entry_fits_exec(e: &BulkEntry) -> (r: bool)
    ensures
        r == entry_fits(*e),
    decreases *e, 0int,
{
    let k = key_fits_exec(e.key.as_str());
    match &e.node {
        BulkNode::Folder(children) => {
            let c = entries_fit_exec(children);
            k && c
        },
        _ => k,
    }
}

/// Whether every range in the schema `roots` can be counted out within `usize`, which
/// `bulk_groups` needs.
pub fn schema_fits(roots: &Vec<BulkEntry>) -> (r: bool)
    ensures
        r == fits_upto(roots@, roots@.len() as int),
{
    entries_fit_exec(roots)
}

/// The data type code of a variable type name: "integer", "int" or "i"; "float" or "f";
/// "text", "string", "str" or "t"; "boolean", "bool" or "b"; in any case. Any other name
/// gives the code of an invalid type.
pub open spec fn bulk_type_code(t: Seq<char>) -> i32 {
    let l = ascii_lower_seq(t);
    if l == seq!['i', 'n', 't', 'e', 'g', 'e', 'r'] || l == seq!['i', 'n', 't'] || l == seq!['i'] {
        var_data_type_code(VarDataType::Integer)
    } else if l == seq!['f', 'l', 'o', 'a', 't'] || l == seq!['f'] {
        var_data_type_code(VarDataType::Float)
    } else if l == seq!['t', 'e', 'x', 't'] || l == seq!['s', 't', 'r', 'i', 'n', 'g'] || l
        == seq!['s', 't', 'r'] || l == seq!['t'] {
        var_data_type_code(VarDataType::Text)
    } else if l == seq!['b', 'o', 'o', 'l', 'e', 'a', 'n'] || l == seq!['b', 'o', 'o', 'l'] || l
        == seq!['b'] {
        var_data_type_code(VarDataType::Boolean)
    } else {
        var_data_type_code(VarDataType::Invalid)
    }
}

fn is_word(l: &Vec<char>, w: &[char]) -> (r: bool)
    ensures
        r == (l@ == w@),
{
    if l.len() != w.len() {
        return false;
    }
    let mut i: usize = 0;
    while i < l.len()
        invariant
            i <= l.len(),
            l.len() == w.len(),
            forall|j: int| 0 <= j < i ==> l@[j] == w@[j],
        decreases l.len() - i,
    {
        if l[i] != w[i] {
            return false;
        }
        i += 1;
    }
    proof {
        assert(l@ =~= w@);
    }
    true
}

/// The data type code for variable type name `t` (see `bulk_type_code`). Only ASCII
/// letters are folded: no other character lower-cases to one of the accepted names.
pub fn bulk_type_code_of(t: &str) -> (c: i32)
    ensures
        c == bulk_type_code(t@),
{
    let v = chars_of(t);
    let l = lower_chars(v.as_slice());
    let integer: [char; 7] = ['i', 'n', 't', 'e', 'g', 'e', 'r'];
    let int3: [char; 3] = ['i', 'n', 't'];
    let i: [char; 1] = ['i'];
    let float: [char; 5] = ['f', 'l', 'o', 'a', 't'];
    let f: [char; 1] = ['f'];
    let text: [char; 4] = ['t', 'e', 'x', 't'];
    let string: [char; 6] = ['s', 't', 'r', 'i', 'n', 'g'];
    let str3: [char; 3] = ['s', 't', 'r'];
    let t1: [char; 1] = ['t'];
    let boolean: [char; 7] = ['b', 'o', 'o', 'l', 'e', 'a', 'n'];
    let bool4: [char; 4] = ['b', 'o', 'o', 'l'];
    let b: [char; 1] = ['b'];
    proof {
        assert(integer@ =~= seq!['i', 'n', 't', 'e', 'g', 'e', 'r']);
        assert(int3@ =~= seq!['i', 'n', 't']);
        assert(i@ =~= seq!['i']);
        assert(float@ =~= seq!['f', 'l', 'o', 'a', 't']);
        assert(f@ =~= seq!['f']);
        assert(text@ =~= seq!['t', 'e', 'x', 't']);
        assert(string@ =~= seq!['s', 't', 'r', 'i', 'n', 'g']);
        assert(str3@ =~= seq!['s', 't', 'r']);
        assert(t1@ =~= seq!['t']);
        assert(boolean@ =~= seq!['b', 'o', 'o', 'l', 'e', 'a', 'n']);
        assert(bool4@ =~= seq!['b', 'o', 'o', 'l']);
        assert(b@ =~= seq!['b']);
    }
    if is_word(&l, integer.as_slice()) || is_word(&l, int3.as_slice()) || is_word(&l, i.as_slice()) {
        VarDataType::Integer.code()
    } else if is_word(&l, float.as_slice()) || is_word(&l, f.as_slice()) {
        VarDataType::Float.code()
    } else if is_word(&l, text.as_slice()) || is_word(&l, string.as_slice()) || is_word(
        &l,
        str3.as_slice(),
    ) || is_word(&l, t1.as_slice()) {
        VarDataType::Text.code()
    } else if is_word(&l, boolean.as_slice()) || is_word(&l, bool4.as_slice()) || is_word(
        &l,
        b.as_slice(),
    ) {
        VarDataType::Boolean.code()
    } else {
        VarDataType::Invalid.code()
    }
}

/// Items to add under one folder: its id, the items, and whether the folder is the one
/// the bulk command names (whose new items the command reports).
pub struct BulkGroup {
    pub parent_id: String,
    pub items: Vec<ItemMeta>,
    pub first_level: bool,
}

/// An item as plain values: name, kind code, data type code.
pub open spec fn meta_view(m: ItemMeta) -> (Seq<char>, i32, Option<i32>) {
    (m.name@, m.i_type, m.var_d_type)
}

/// A group as plain values.
pub open spec fn group_view(g: BulkGroup) -> (Seq<char>, Seq<(Seq<char>, i32, Option<i32>)>, bool) {
    (g.parent_id@, g.items@.map_values(|m: ItemMeta| meta_view(m)), g.first_level)
}

/// Groups as plain values.
pub open spec fn groups_view(gs: Seq<BulkGroup>) -> Seq<(Seq<char>, Seq<(Seq<char>, i32, Option<i32>)>, bool)> {
    gs.map_values(|g: BulkGroup| group_view(g))
}

/// `s` without the '/' characters it ends with.
pub open spec fn trim_trailing_slashes(s: Seq<char>) -> Seq<char>
    decreases s.len(),
{
    if s.len() > 0 && s.last() == '/' {
        trim_trailing_slashes(s.drop_last())
    } else {
        s
    }
}

/// The id of folder `name` under folder `parent`: "/name" under the root, otherwise the
/// parent without trailing '/' then "/name".
pub open spec fn child_path(parent: Seq<char>, name: Seq<char>) -> Seq<char> {
    if parent == seq!['/'] {
        seq!['/'] + name
    } else {
        trim_trailing_slashes(parent) + seq!['/'] + name
    }
}

/// The items that entry node `node` makes from names `names`: folders, or variables of
/// the node's type; none for an empty node.
pub open spec fn node_metas(names: Seq<Seq<char>>, node: BulkNode) -> Seq<(Seq<char>, i32, Option<i32>)> {
    match node {
        BulkNode::Folder(_) => names.map_values(
            |n: Seq<char>| (n, item_type_code(ItemType::Folder), None::<i32>),
        ),
        BulkNode::Variable(t) => names.map_values(
            |n: Seq<char>| (n, item_type_code(ItemType::Variable), Some(bulk_type_code(t@))),
        ),
        BulkNode::Empty => Seq::empty(),
    }
}

/// The group that entry `e` adds under folder `p` (none when it makes no item).
pub open spec fn entry_group(root: Seq<char>, p: Seq<char>, e: BulkEntry) -> Seq<
    (Seq<char>, Seq<(Seq<char>, i32, Option<i32>)>, bool),
> {
    let metas = node_metas(key_names(e.key@), e.node);
    if metas.len() > 0 {
        seq![(p, metas, p == root)]
    } else {
        Seq::empty()
    }
}

/// The groups the entries of one folder add under it, entry by entry.
pub open spec fn level(root: Seq<char>, p: Seq<char>, entries: Seq<BulkEntry>) -> Seq<
    (Seq<char>, Seq<(Seq<char>, i32, Option<i32>)>, bool),
>
    decreases entries.len(),
{
    if entries.len() == 0 {
        Seq::empty()
    } else {
        level(root, p, entries.drop_last()) + entry_group(root, p, entries.last())
    }
}

/// All groups of the schema `entries` under folder `p`: first the folder's own level,
/// then the subtrees of its new folders, the last one first.
pub open spec fn walk(root: Seq<char>, p: Seq<char>, entries: Seq<BulkEntry>) -> Seq<
    (Seq<char>, Seq<(Seq<char>, i32, Option<i32>)>, bool),
>
    decreases entries, 3int, 0int,
{
    level(root, p, entries) + subtrees(root, p, entries, entries.len() as int)
}

/// The subtrees below the first `n` entries, the last entry first.
pub open spec fn subtrees(root: Seq<char>, p: Seq<char>, entries: Seq<BulkEntry>, n: int) -> Seq<
    (Seq<char>, Seq<(Seq<char>, i32, Option<i32>)>, bool),
>
    decreases entries, 2int, n,
{
    if n <= 0 || n > entries.len() {
        Seq::empty()
    } else {
        entry_subtrees(root, p, entries[n - 1]) + subtrees(root, p, entries, n - 1)
    }
}

/// The subtrees below the folders that entry `e` makes under `p`, the last copy first.
pub open spec fn entry_subtrees(root: Seq<char>, p: Seq<char>, e: BulkEntry) -> Seq<
    (Seq<char>, Seq<(Seq<char>, i32, Option<i32>)>, bool),
>
    decreases e, 1int, 0int,
{
    names_walk(root, p, e, key_names(e.key@).len() as int)
}

/// The subtrees below the first `k` folder copies of entry `e`, the last one first.
pub open spec fn names_walk(root: Seq<char>, p: Seq<char>, e: BulkEntry, k: int) -> Seq<
    (Seq<char>, Seq<(Seq<char>, i32, Option<i32>)>, bool),
>
    decreases e, 0int, k,
{
    if k <= 0 || k > key_names(e.key@).len() {
        Seq::empty()
    } else {
        match e.node {
            BulkNode::Folder(children) => walk(root, child_path(p, key_names(e.key@)[k - 1]), children@)
                + names_walk(root, p, e, k - 1),
            _ => Seq::empty(),
        }
    }
}

fn key_names_exec(key: &str) -> (names: Vec<String>)
    requires
        key_fits(key@),
    ensures
        names@.len() == key_names(key@).len(),
        forall|i: int| 0 <= i < names@.len() ==> (#[trigger] names@[i])@ == key_names(key@)[i],
{
    let mut rest: &str = key;
    let (a, b, c) = parse_repeated_name(&mut rest);
    clone_name(rest, a, b, c)
}

fn child_path_exec(p: &str, name: &str) -> (s: String)
    ensures
        s@ == child_path(p@, name@),
{
    let pc = chars_of(p);
    let nc = chars_of(name);
    let mut out = String::new();
    if pc.len() == 1 && pc[0] == '/' {
        proof {
            assert(pc@ =~= seq!['/']);
        }
        string_push(&mut out, '/');
        push_chars(&mut out, nc.as_slice());
        proof {
            assert(out@ =~= seq!['/'] + name@);
        }
        return out;
    }
    let mut n: usize = pc.len();
    proof {
        assert(pc@.take(n as int) =~= pc@);
    }
    while n > 0 && pc[n - 1] == '/'
        invariant
            n <= pc.len(),
            trim_trailing_slashes(pc@) == trim_trailing_slashes(pc@.take(n as int)),
        decreases n,
    {
        proof {
            assert(pc@.take(n as int).drop_last() =~= pc@.take(n - 1));
        }
        n -= 1;
    }
    let mut i: usize = 0;
    while i < n
        invariant
            i <= n <= pc.len(),
            out@ == pc@.take(i as int),
        decreases n - i,
    {
        string_push(&mut out, pc[i]);
        proof {
            assert(pc@.take(i + 1) =~= pc@.take(i as int).push(pc@[i as int]));
        }
        i += 1;
    }
    proof {
        assert(trim_trailing_slashes(pc@.take(n as int)) == pc@.take(n as int));
    }
    string_push(&mut out, '/');
    push_chars(&mut out, nc.as_slice());
    proof {
        if p@ == seq!['/'] {
            assert(pc@.len() == 1 && pc@[0] == '/');
        }
    }
    out
}

proof fn lemma_groups_push(gs: Seq<BulkGroup>, g: BulkGroup)
    ensures
        groups_view(gs.push(g)) == groups_view(gs).push(group_view(g)),
{
    assert(groups_view(gs.push(g)) =~= groups_view(gs).push(group_view(g)));
}

fn push_entry_group(root: &str, p: &str, e: &BulkEntry, out: &mut Vec<BulkGroup>)
    requires
        entry_fits(*e),
    ensures
        groups_view(final(out)@) == groups_view(old(out)@) + entry_group(root@, p@, *e),
{
    let names = key_names_exec(e.key.as_str());
    let ghost kn = key_names(e.key@);
    let ghost metas = node_metas(kn, e.node);
    let mut items: Vec<ItemMeta> = Vec::new();
    let mut j: usize = 0;
    match &e.node {
        BulkNode::Empty => {
            proof {
                assert(entry_group(root@, p@, *e) =~= Seq::empty());
                assert(groups_view(out@) + Seq::empty() =~= groups_view(out@));
            }
            return;
        },
        _ => {},
    }
    let code: Option<i32> = match &e.node {
        BulkNode::Variable(t) => Some(bulk_type_code_of(t.as_str())),
        _ => None,
    };
    let kind: i32 = match &e.node {
        BulkNode::Variable(_) => ItemType::Variable.code(),
        _ => ItemType::Folder.code(),
    };
    while j < names.len()
        invariant
            j <= names.len(),
            names@.len() == kn.len(),
            metas.len() == kn.len(),
            forall|i: int| 0 <= i < names@.len() ==> (#[trigger] names@[i])@ == kn[i],
            forall|i: int| 0 <= i < kn.len() ==> #[trigger] metas[i] == (kn[i], kind, code),
            items@.map_values(|m: ItemMeta| meta_view(m)) == metas.take(j as int),
        decreases names.len() - j,
    {
        let m = ItemMeta { name: names[j].clone(), i_type: kind, var_d_type: code };
        let ghost old_items = items@;
        proof {
            assert(m.name@ == kn[j as int]);
            assert(meta_view(m) == metas[j as int]);
        }
        items.push(m);
        proof {
            assert(items@.map_values(|m: ItemMeta| meta_view(m)) =~= old_items.map_values(
                |m: ItemMeta| meta_view(m),
            ).push(meta_view(m)));
            assert(metas.take(j + 1) =~= metas.take(j as int).push(metas[j as int]));
        }
        j += 1;
    }
    proof {
        assert(metas.take(names.len() as int) =~= metas);
    }
    if items.len() > 0 {
        let rc = chars_of(root);
        let pc = chars_of(p);
        let first = crate::text::chars_eq(rc.as_slice(), pc.as_slice());
        let g = BulkGroup { parent_id: string_of(pc.as_slice()), items, first_level: first };
        let ghost before = out@;
        out.push(g);
        proof {
            lemma_groups_push(before, g);
            assert(group_view(g) == (p@, metas, p@ == root@));
        }
    } else {
        proof {
            assert(entry_group(root@, p@, *e) =~= Seq::empty());
            assert(groups_view(out@) + Seq::empty() =~= groups_view(out@));
        }
    }
}

fn push_level(root: &str, p: &str, entries: &Vec<BulkEntry>, out: &mut Vec<BulkGroup>)
    requires
        fits_upto(entries@, entries@.len() as int),
    ensures
        groups_view(final(out)@) == groups_view(old(out)@) + level(root@, p@, entries@),
{
    let ghost start = groups_view(out@);
    let mut i: usize = 0;
    proof {
        assert(entries@.take(0) =~= Seq::<BulkEntry>::empty());
        assert(start + Seq::empty() =~= start);
    }
    while i < entries.len()
        invariant
            i <= entries.len(),
            fits_upto(entries@, entries@.len() as int),
            groups_view(out@) == start + level(root@, p@, entries@.take(i as int)),
        decreases entries.len() - i,
    {
        proof {
            lemma_fits_upto(entries@, entries@.len() as int, i as int);
            let t = entries@.take(i + 1);
            assert(t.drop_last() =~= entries@.take(i as int));
            assert(t.last() == entries@[i as int]);
        }
        let ghost before = groups_view(out@);
        push_entry_group(root, p, &entries[i], out);
        proof {
            assert(groups_view(out@) =~= start + level(root@, p@, entries@.take(i + 1)));
        }
        i += 1;
    }
    proof {
        assert(entries@.take(entries.len() as int) =~= entries@);
    }
}

fn walk_exec(root: &str, p: &str, entries: &Vec<BulkEntry>, out: &mut Vec<BulkGroup>)
    requires
        fits_upto(entries@, entries@.len() as int),
    ensures
        groups_view(final(out)@) == groups_view(old(out)@) + walk(root@, p@, entries@),
    decreases entries@, 3int, 0int,
{
    let ghost start = groups_view(out@);
    push_level(root, p, entries, out);
    let ghost mid = groups_view(out@);
    push_subtrees(root, p, entries, out);
    proof {
        assert(groups_view(out@) =~= start + walk(root@, p@, entries@));
    }
}

fn push_subtrees(root: &str, p: &str, entries: &Vec<BulkEntry>, out: &mut Vec<BulkGroup>)
    requires
        fits_upto(entries@, entries@.len() as int),
    ensures
        groups_view(final(out)@) == groups_view(old(out)@) + subtrees(
            root@,
            p@,
            entries@,
            entries@.len() as int,
        ),
    decreases entries@, 2int, 0int,
{
    let ghost start = groups_view(out@);
    let ghost len = entries@.len() as int;
    let mut i: usize = entries.len();
    proof {
        assert(start + subtrees(root@, p@, entries@, len) =~= groups_view(out@) + subtrees(root@, p@, entries@, i as int));
    }
    while i > 0
        invariant
            i <= entries.len(),
            len == entries@.len(),
            fits_upto(entries@, len),
            start + subtrees(root@, p@, entries@, len) == groups_view(out@) + subtrees(root@, p@, entries@, i as int),
        decreases i,
    {
        proof {
            lemma_fits_upto(entries@, len, i - 1);
        }
        let ghost before = groups_view(out@);
        entry_subtrees_exec(root, p, &entries[i - 1], out);
        proof {
            assert(subtrees(root@, p@, entries@, i as int) == entry_subtrees(root@, p@, entries@[i - 1])
                + subtrees(root@, p@, entries@, i - 1));
            assert(before + subtrees(root@, p@, entries@, i as int) =~= groups_view(out@) + subtrees(root@, p@, entries@, i - 1));
        }
        i -= 1;
    }
    proof {
        assert(groups_view(out@) + subtrees(root@, p@, entries@, 0) =~= groups_view(out@));
    }
}

fn entry_subtrees_exec(root: &str, p: &str, e: &BulkEntry, out: &mut Vec<BulkGroup>)
    requires
        entry_fits(*e),
    ensures
        groups_view(final(out)@) == groups_view(old(out)@) + entry_subtrees(root@, p@, *e),
    decreases *e, 1int, 0int,
{
    let ghost start = groups_view(out@);
    let ghost kn = key_names(e.key@);
    match &e.node {
        BulkNode::Folder(children) => {
            let names = key_names_exec(e.key.as_str());
            let mut k: usize = names.len();
            proof {
                assert(start + names_walk(root@, p@, *e, kn.len() as int) =~= groups_view(out@) + names_walk(root@, p@, *e, k as int));
            }
            while k > 0
                invariant
                    k <= names.len(),
                    names@.len() == kn.len(),
                    kn == key_names(e.key@),
                    e.node == BulkNode::Folder(*children),
                    fits_upto(children@, children@.len() as int),
                    forall|i: int| 0 <= i < names@.len() ==> (#[trigger] names@[i])@ == kn[i],
                    start + names_walk(root@, p@, *e, kn.len() as int) == groups_view(out@) + names_walk(root@, p@, *e, k as int),
                decreases k,
            {
                let cp = child_path_exec(p, names[k - 1].as_str());
                let ghost before = groups_view(out@);
                walk_exec(root, cp.as_str(), children, out);
                proof {
                    assert(names_walk(root@, p@, *e, k as int) == walk(root@, child_path(p@, kn[k - 1]), children@)
                        + names_walk(root@, p@, *e, k - 1));
                    assert(before + names_walk(root@, p@, *e, k as int) =~= groups_view(out@) + names_walk(root@, p@, *e, k - 1));
                }
                k -= 1;
            }
            proof {
                assert(groups_view(out@) + names_walk(root@, p@, *e, 0) =~= groups_view(out@));
            }
        },
        _ => {
            proof {
                assert(names_walk(root@, p@, *e, kn.len() as int) =~= Seq::empty()) by {
                    if kn.len() > 0 {
                        assert(names_walk(root@, p@, *e, kn.len() as int) == Seq::<(Seq<char>, Seq<(Seq<char>, i32, Option<i32>)>, bool)>::empty());
                    }
                }
                assert(start + Seq::empty() =~= start);
            }
        },
    }
}

/// The groups of items that the bulk schema `roots` adds under folder `parent_id`, in the
/// order they are added (see `walk`); groups directly under `parent_id` are marked.
pub fn bulk_groups(parent_id: &str, roots: &Vec<BulkEntry>) -> (gs: Vec<BulkGroup>)
    requires
        fits_upto(roots@, roots@.len() as int),
    ensures
        groups_view(gs@) == walk(parent_id@, parent_id@, roots@),
{
    let mut out: Vec<BulkGroup> = Vec::new();
    proof {
        assert(groups_view(out@) =~= Seq::empty());
    }
    walk_exec(parent_id, parent_id, roots, &mut out);
    proof {
        assert(Seq::<(Seq<char>, Seq<(Seq<char>, i32, Option<i32>)>, bool)>::empty() + walk(parent_id@, parent_id@, roots@) =~= walk(parent_id@, parent_id@, roots@));
    }
    out
}

/// What a bulk command writes: the inserts of all groups in order, and the new folders
/// and variables of the groups directly under the command's folder, which its event
/// reports.
pub struct BulkPlan {
    pub inserts: Vec<(String, ItemMeta)>,
    pub first_folders: Vec<ItemMeta>,
    pub first_variables: Vec<ItemMeta>,
}

/// The inserts of `plans`, one plan after the other.
pub open spec fn all_inserts(plans: Seq<AddPlan>) -> Seq<(String, ItemMeta)>
    decreases plans.len(),
{
    if plans.len() == 0 {
        Seq::empty()
    } else {
        all_inserts(plans.drop_last()) + plans.last().inserts@
    }
}

/// The new folders of the plans marked in `first`, one plan after the other.
pub open spec fn first_folders_of(plans: Seq<AddPlan>, first: Seq<bool>) -> Seq<ItemMeta>
    decreases plans.len(),
{
    if plans.len() == 0 {
        Seq::empty()
    } else {
        first_folders_of(plans.drop_last(), first.take(plans.len() - 1)) + if first[plans.len() - 1] {
            plans.last().new_folders@
        } else {
            Seq::empty()
        }
    }
}

/// The new variables of the plans marked in `first`, one plan after the other.
pub open spec fn first_variables_of(plans: Seq<AddPlan>, first: Seq<bool>) -> Seq<ItemMeta>
    decreases plans.len(),
{
    if plans.len() == 0 {
        Seq::empty()
    } else {
        first_variables_of(plans.drop_last(), first.take(plans.len() - 1)) + if first[plans.len()
            - 1] {
            plans.last().new_variables@
        } else {
            Seq::empty()
        }
    }
}

fn append_inserts(dst: &mut Vec<(String, ItemMeta)>, src: &Vec<(String, ItemMeta)>)
    ensures
        final(dst)@ == old(dst)@ + src@,
{
    let ghost start = dst@;
    let mut k: usize = 0;
    while k < src.len()
        invariant
            k <= src.len(),
            dst@ == start + src@.take(k as int),
        decreases src.len() - k,
    {
        let e = (src[k].0.clone(), src[k].1.copy());
        dst.push(e);
        proof {
            assert(src@.take(k + 1) =~= src@.take(k as int).push(src@[k as int]));
        }
        k += 1;
    }
    proof {
        assert(src@.take(src.len() as int) =~= src@);
    }
}

fn append_metas(dst: &mut Vec<ItemMeta>, src: &Vec<ItemMeta>)
    ensures
        final(dst)@ == old(dst)@ + src@,
{
    let ghost start = dst@;
    let mut k: usize = 0;
    while k < src.len()
        invariant
            k <= src.len(),
            dst@ == start + src@.take(k as int),
        decreases src.len() - k,
    {
        dst.push(src[k].copy());
        proof {
            assert(src@.take(k + 1) =~= src@.take(k as int).push(src@[k as int]));
        }
        k += 1;
    }
    proof {
        assert(src@.take(src.len() as int) =~= src@);
    }
}

/// Joins the plans of the groups of a bulk command, `first[i]` telling whether group
/// `i` lies directly under the command's folder.
pub fn merge_bulk_plans(plans: &Vec<AddPlan>, first: &Vec<bool>) -> (p: BulkPlan)
    requires
        plans@.len() == first@.len(),
    ensures
        p.inserts@ == all_inserts(plans@),
        p.first_folders@ == first_folders_of(plans@, first@),
        p.first_variables@ == first_variables_of(plans@, first@),
{
    let mut inserts: Vec<(String, ItemMeta)> = Vec::new();
    let mut folders: Vec<ItemMeta> = Vec::new();
    let mut variables: Vec<ItemMeta> = Vec::new();
    let mut i: usize = 0;
    proof {
        assert(plans@.take(0) =~= Seq::<AddPlan>::empty());
        assert(first@.take(0) =~= Seq::<bool>::empty());
    }
    while i < plans.len()
        invariant
            i <= plans.len(),
            plans@.len() == first@.len(),
            inserts@ == all_inserts(plans@.take(i as int)),
            folders@ == first_folders_of(plans@.take(i as int), first@.take(i as int)),
            variables@ == first_variables_of(plans@.take(i as int), first@.take(i as int)),
        decreases plans.len() - i,
    {
        proof {
            let t = plans@.take(i + 1);
            assert(t.drop_last() =~= plans@.take(i as int));
            assert(t.last() == plans@[i as int]);
            assert(first@.take(i + 1).take(i as int) =~= first@.take(i as int));
            assert(first@.take(i + 1)[i as int] == first@[i as int]);
        }
        append_inserts(&mut inserts, &plans[i].inserts);
        if first[i] {
            append_metas(&mut folders, &plans[i].new_folders);
            append_metas(&mut variables, &plans[i].new_variables);
        } else {
            proof {
                assert(folders@ + Seq::<ItemMeta>::empty() =~= folders@);
                assert(variables@ + Seq::<ItemMeta>::empty() =~= variables@);
            }
        }
        i += 1;
    }
    proof {
        assert(plans@.take(i as int) =~= plans@);
        assert(first@.take(i as int) =~= first@);
    }
    BulkPlan { inserts, first_folders: folders, first_variables: variables }
}

} // verus!
