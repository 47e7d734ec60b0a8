//! Descending into directories (`--recursive`): the files under each input,
//! depth first, each directory's entries in the order of their paths.
//!
//! The program reads the directories into a tree of `Entry` values; what the
//! walk makes of that tree is decided here.

use vstd::prelude::*;

verus! {

/// Byte string `a` comes before byte string `b` in lexicographic order (a
/// proper prefix comes first), which is how paths of one directory's entries
/// compare.
pub open spec fn lex_lt(a: Seq<u8>, b: Seq<u8>) -> bool
    decreases a.len(),
{
    if a.len() == 0 {
        b.len() > 0
    } else if b.len() == 0 {
        false
    } else if a[0] < b[0] {
        true
    } else if a[0] > b[0] {
        false
    } else {
        lex_lt(a.drop_first(), b.drop_first())
    }
}

/// Nothing comes before itself.
pub proof fn lemma_lex_irreflexive(a: Seq<u8>)
    ensures
        !lex_lt(a, a),
    decreases a.len(),
{
    if a.len() > 0 {
        lemma_lex_irreflexive(a.drop_first());
    }
}

/// Lexicographic order is transitive.
pub proof fn lemma_lex_transitive(a: Seq<u8>, b: Seq<u8>, c: Seq<u8>)
    requires
        lex_lt(a, b),
        lex_lt(b, c),
    ensures
        lex_lt(a, c),
    decreases a.len(),
{
    if a.len() > 0 && b.len() > 0 && c.len() > 0 && a[0] == b[0] && b[0] == c[0] {
        lemma_lex_transitive(a.drop_first(), b.drop_first(), c.drop_first());
    }
}

/// Any two byte strings are equal or one comes before the other.
pub proof fn lemma_lex_total(a: Seq<u8>, b: Seq<u8>)
    ensures
        lex_lt(a, b) || a == b || lex_lt(b, a),
    decreases a.len(),
{
    if a.len() > 0 && b.len() > 0 && a[0] == b[0] {
        lemma_lex_total(a.drop_first(), b.drop_first());
        if a.drop_first() == b.drop_first() {
            assert(a =~= seq![a[0]] + a.drop_first());
            assert(b =~= seq![b[0]] + b.drop_first());
        }
    } else if a.len() == 0 && b.len() == 0 {
        assert(a =~= b);
    }
}

/// Whether `a` comes before `b` in lexicographic order.
pub fn lex_less(a: &[u8], b: &[u8]) -> (r: bool)
    ensures
        r == lex_lt(a@, b@),
{
    let mut i: usize = 0;
    assert(a@.skip(0) =~= a@ && b@.skip(0) =~= b@);
    while i < a.len() && i < b.len()
        invariant
            i <= a@.len(),
            i <= b@.len(),
            lex_lt(a@, b@) == lex_lt(a@.skip(i as int), b@.skip(i as int)),
        decreases a@.len() - i,
    {
        proof {
            assert(a@.skip(i as int)[0] == a@[i as int]);
            assert(b@.skip(i as int)[0] == b@[i as int]);
            assert(a@.skip(i as int).drop_first() =~= a@.skip(i + 1));
            assert(b@.skip(i as int).drop_first() =~= b@.skip(i + 1));
        }
        if a[i] < b[i] {
            return true;
        }
        if a[i] > b[i] {
            return false;
        }
        i = i + 1;
    }
    i < b.len()
}

/// A path as the walk finds it.
pub enum Entry {
    /// A path that is not a directory that could be listed.
    Leaf(Vec<u8>),
    /// A directory, and its entries in the order in which it listed them.
    Dir(Vec<u8>, Vec<Entry>),
}

/// The path of an entry.
pub open spec fn entry_path(e: Entry) -> Seq<u8> {
    match e {
        Entry::Leaf(p) => p@,
        Entry::Dir(p, _) => p@,
    }
}

/// Entry `i` of `cs` comes before entry `j` when sorted stably by path.
pub open spec fn before(cs: Seq<Entry>, i: int, j: int) -> bool {
    lex_lt(entry_path(cs[i]), entry_path(cs[j])) || (entry_path(cs[i]) == entry_path(cs[j]) && i < j)
}

/// `order` lists the positions of `cs` sorted stably by path: each position
/// once, in the order of their paths, equal paths in their listed order.
pub open spec fn is_sorted_order(cs: Seq<Entry>, order: Seq<usize>) -> bool {
    &&& order.len() == cs.len()
    &&& forall|k: int| 0 <= k < order.len() ==> #[trigger] order[k] < cs.len()
    &&& forall|k: int, l: int|
        0 <= k < l < order.len() ==> before(cs, #[trigger] order[k] as int, #[trigger] order[l] as int)
}

/// `out` is what walking entry `e` gives: a path that is not a directory gives
/// itself; a directory gives what walking each of its entries gives, the
/// entries sorted stably by path.
pub open spec fn walks_to(e: Entry, out: Seq<Seq<u8>>) -> bool
    decreases e,
{
    match e {
        Entry::Leaf(p) => out == seq![p@],
        Entry::Dir(_, cs) => exists|order: Seq<usize>, parts: Seq<Seq<Seq<u8>>>|
            {
                &&& is_sorted_order(cs@, order)
                &&& parts.len() == cs@.len()
                &&& out == parts.flatten()
                &&& forall|k: int|
                    0 <= k < parts.len() ==> order[k] < cs@.len() && walks_to(
                        cs@[order[k] as int],
                        #[trigger] parts[k],
                    )
            },
    }
}

/// Sorting stably by path is a strict order: no entry comes before itself,
/// and of two entries at most one comes before the other.
pub proof fn lemma_before_asymmetric(cs: Seq<Entry>, i: int, j: int)
    ensures
        !(before(cs, i, j) && before(cs, j, i)),
{
    let a = entry_path(cs[i]);
    let b = entry_path(cs[j]);
    lemma_lex_irreflexive(a);
    lemma_lex_irreflexive(b);
    if lex_lt(a, b) && lex_lt(b, a) {
        lemma_lex_transitive(a, b, a);
    }
}

/// A sorted order lists every position of `cs` exactly once.
pub proof fn lemma_sorted_order_covers(cs: Seq<Entry>, order: Seq<usize>, j: int)
    requires
        is_sorted_order(cs, order),
        0 <= j < cs.len(),
    ensures
        exists|k: int| 0 <= k < order.len() && order[k] == j,
{
    let n = cs.len() as int;
    let ints = order.map_values(|x: usize| x as int);
    assert(ints.no_duplicates()) by {
        assert forall|k: int, l: int| 0 <= k < ints.len() && 0 <= l < ints.len() && k != l implies ints[k]
            != ints[l] by {
            if k < l {
                assert(before(cs, order[k] as int, order[l] as int));
                lemma_before_asymmetric(cs, order[k] as int, order[k] as int);
            } else {
                assert(before(cs, order[l] as int, order[k] as int));
                lemma_before_asymmetric(cs, order[l] as int, order[l] as int);
            }
        }
    }
    ints.unique_seq_to_set();
    vstd::set_lib::lemma_int_range(0, n);
    let range = vstd::set_lib::set_int_range(0, n);
    assert(ints.to_set().subset_of(range)) by {
        assert forall|x: int| ints.to_set().contains(x) implies range.contains(x) by {
            let k = choose|k: int| 0 <= k < ints.len() && ints[k] == x;
            assert(order[k] < cs.len());
        }
    }
    vstd::set_lib::lemma_subset_equality(ints.to_set(), range);
    assert(range.contains(j));
    assert(ints.to_set().contains(j));
    let k = choose|k: int| 0 <= k < ints.len() && ints[k] == j;
    assert(order[k] == j);
}

/// Two sorted orders of the entries of a directory agree at each position.
proof fn lemma_orders_agree(cs: Seq<Entry>, o1: Seq<usize>, o2: Seq<usize>, k: int)
    requires
        is_sorted_order(cs, o1),
        is_sorted_order(cs, o2),
        0 <= k < o1.len(),
    ensures
        o1[k] == o2[k],
    decreases k,
{
    assert forall|e: int| 0 <= e < k implies o1[e] == o2[e] by {
        lemma_orders_agree(cs, o1, o2, e);
    }
    if o1[k] != o2[k] {
        let x = o1[k] as int;
        let y = o2[k] as int;
        lemma_sorted_order_covers(cs, o2, x);
        lemma_sorted_order_covers(cs, o1, y);
        let l = choose|l: int| 0 <= l < o2.len() && o2[l] == x;
        let m = choose|m: int| 0 <= m < o1.len() && o1[m] == y;
        if l < k {
            assert(o1[l] == o2[l]);
            assert(before(cs, o1[l] as int, o1[k] as int));
            lemma_before_asymmetric(cs, x, x);
        } else if m < k {
            assert(o1[m] == o2[m]);
            assert(before(cs, o2[m] as int, o2[k] as int));
            lemma_before_asymmetric(cs, y, y);
        } else {
            assert(l != k);
            assert(m != k);
            assert(before(cs, o2[k] as int, o2[l] as int));
            assert(before(cs, o1[k] as int, o1[m] as int));
            lemma_before_asymmetric(cs, x, y);
        }
    }
}

/// There is only one sorted order of the entries of a directory.
pub proof fn lemma_sorted_order_unique(cs: Seq<Entry>, o1: Seq<usize>, o2: Seq<usize>)
    requires
        is_sorted_order(cs, o1),
        is_sorted_order(cs, o2),
    ensures
        o1 == o2,
{
    assert forall|k: int| 0 <= k < o1.len() implies o1[k] == o2[k] by {
        lemma_orders_agree(cs, o1, o2, k);
    }
    assert(o1 =~= o2);
}

/// Walking an entry gives one result only.
pub proof fn lemma_walk_unique(e: Entry, out1: Seq<Seq<u8>>, out2: Seq<Seq<u8>>)
    requires
        walks_to(e, out1),
        walks_to(e, out2),
    ensures
        out1 == out2,
    decreases e,
{
    match e {
        Entry::Leaf(_) => {},
        Entry::Dir(_, cs) => {
            let (o1, p1) = choose|order: Seq<usize>, parts: Seq<Seq<Seq<u8>>>|
                {
                    &&& is_sorted_order(cs@, order)
                    &&& parts.len() == cs@.len()
                    &&& out1 == parts.flatten()
                    &&& forall|k: int|
                        0 <= k < parts.len() ==> order[k] < cs@.len() && walks_to(
                            cs@[order[k] as int],
                            #[trigger] parts[k],
                        )
                };
            let (o2, p2) = choose|order: Seq<usize>, parts: Seq<Seq<Seq<u8>>>|
                {
                    &&& is_sorted_order(cs@, order)
                    &&& parts.len() == cs@.len()
                    &&& out2 == parts.flatten()
                    &&& forall|k: int|
                        0 <= k < parts.len() ==> order[k] < cs@.len() && walks_to(
                            cs@[order[k] as int],
                            #[trigger] parts[k],
                        )
                };
            lemma_sorted_order_unique(cs@, o1, o2);
            assert forall|k: int| 0 <= k < p1.len() implies p1[k] == p2[k] by {
                assert(decreases_to!(e => cs@[o1[k] as int]));
                lemma_walk_unique(cs@[o1[k] as int], p1[k], p2[k]);
            }
            assert(p1 =~= p2);
        },
    }
}

/// The byte strings of a list of paths.
pub open spec fn paths(v: Seq<Vec<u8>>) -> Seq<Seq<u8>> {
    v.map_values(|p: Vec<u8>| p@)
}

impl Entry {
    /// The path of the entry.
    pub fn path(&self) -> (p: &Vec<u8>)
        ensures
            p@ == entry_path(*self),
    {
        match self {
            Entry::Leaf(p) => p,
            Entry::Dir(p, _) => p,
        }
    }
}

/// The positions of `cs` sorted stably by path.
pub fn sorted_order(cs: &Vec<Entry>) -> (order: Vec<usize>)
    ensures
        is_sorted_order(cs@, order@),
{
    let n = cs.len();
    let mut order: Vec<usize> = Vec::new();
    let mut i: usize = 0;
    while i < n
        invariant
            i <= n == cs@.len(),
            order@.len() == i,
            forall|k: int| 0 <= k < i ==> #[trigger] order@[k] < i,
            forall|k: int, l: int|
                0 <= k < l < i ==> before(cs@, #[trigger] order@[k] as int, #[trigger] order@[l] as int),
        decreases n - i,
    {
        let key = cs[i].path();
        let mut p: usize = 0;
        while p < i && !lex_less(key.as_slice(), cs[order[p]].path().as_slice())
            invariant
                p <= i < n == cs@.len(),
                order@.len() == i,
                key@ == entry_path(cs@[i as int]),
                forall|k: int| 0 <= k < i ==> #[trigger] order@[k] < i,
                forall|k: int| 0 <= k < p ==> !lex_lt(key@, entry_path(cs@[#[trigger] order@[k] as int])),
            decreases i - p,
        {
            p = p + 1;
        }
        let ghost old_order = order@;
        proof {
            assert forall|k: int| 0 <= k < p implies before(cs@, #[trigger] old_order[k] as int, i as int) by {
                lemma_lex_total(key@, entry_path(cs@[old_order[k] as int]));
            }
            if p < i {
                assert forall|k: int| p <= k < i implies before(cs@, i as int, #[trigger] old_order[k] as int) by {
                    let first = entry_path(cs@[old_order[p as int] as int]);
                    let other = entry_path(cs@[old_order[k] as int]);
                    if k > p {
                        assert(before(cs@, old_order[p as int] as int, old_order[k] as int));
                        if lex_lt(first, other) {
                            lemma_lex_transitive(key@, first, other);
                        }
                    }
                }
            }
        }
        order.insert(p, i);
        proof {
            old_order.insert_ensures(p as int, i);
            assert forall|k: int, l: int|
                0 <= k < l < i + 1 implies before(cs@, #[trigger] order@[k] as int, #[trigger] order@[l] as int) by {
                if l < p {
                    assert(order@[k] == old_order[k] && order@[l] == old_order[l]);
                } else if l == p {
                    assert(order@[k] == old_order[k]);
                } else if k < p {
                    assert(order@[k] == old_order[k] && order@[l] == old_order[l - 1]);
                } else if k == p {
                    assert(order@[l] == old_order[l - 1]);
                } else {
                    assert(order@[k] == old_order[k - 1] && order@[l] == old_order[l - 1]);
                }
            }
            assert forall|k: int| 0 <= k < i + 1 implies #[trigger] order@[k] < i + 1 by {
                if k < p {
                    assert(order@[k] == old_order[k]);
                } else if k > p {
                    assert(order@[k] == old_order[k - 1]);
                }
            }
        }
        i = i + 1;
    }
    order
}

/// Appends what walking `e` gives to `acc`.
pub fn walk_into(e: &Entry, acc: &mut Vec<Vec<u8>>)
    ensures
        exists|out: Seq<Seq<u8>>| walks_to(*e, out) && paths(final(acc)@) == paths(old(acc)@) + out,
    decreases e,
{
    match e {
        Entry::Leaf(p) => {
            let ghost before_acc = acc@;
            acc.push(vstd::slice::slice_to_vec(p.as_slice()));
            proof {
                assert(paths(acc@) =~= paths(before_acc) + seq![p@]);
                assert(walks_to(*e, seq![p@]));
            }
        },
        Entry::Dir(_, cs) => {
            let order = sorted_order(cs);
            let ghost start = acc@;
            let ghost mut parts: Seq<Seq<Seq<u8>>> = Seq::empty();
            let mut k: usize = 0;
            while k < order.len()
                invariant
                    *e is Dir,
                    (*e)->Dir_1 == *cs,
                    k <= order@.len() == cs@.len(),
                    is_sorted_order(cs@, order@),
                    parts.len() == k,
                    paths(acc@) == paths(start) + parts.flatten(),
                    forall|j: int|
                        0 <= j < k ==> order@[j] < cs@.len() && walks_to(cs@[order@[j] as int], #[trigger] parts[j]),
                decreases order@.len() - k,
            {
                let ghost mid = acc@;
                let j = order[k];
                proof {
                    assert(decreases_to!(*e => cs@[j as int]));
                }
                walk_into(&cs[j], acc);
                let ghost out = choose|out: Seq<Seq<u8>>| walks_to(cs@[j as int], out) && paths(acc@) == paths(mid) + out;
                proof {
                    vstd::seq_lib::lemma_flatten_concat(parts, seq![out]);
                    assert(seq![out].flatten() =~= out) by {
                        reveal_with_fuel(Seq::flatten, 2);
                        assert(seq![out].drop_first() =~= Seq::<Seq<Seq<u8>>>::empty());
                    }
                    let ghost prev = parts;
                    parts = parts.push(out);
                    assert(parts =~= prev + seq![out]);
                    assert(parts.flatten() =~= prev.flatten() + out);
                }
                k = k + 1;
            }
            proof {
                assert(walks_to(*e, parts.flatten()));
            }
        },
    }
}

/// Expands each input into what walking it gives, in the order of the inputs:
/// the files under a directory replace it, a path that is not a directory that
/// could be listed stays as it is.
pub fn expand_recursive(inputs: &Vec<Entry>) -> (r: Vec<Vec<u8>>)
    ensures
        exists|parts: Seq<Seq<Seq<u8>>>|
            {
                &&& parts.len() == inputs@.len()
                &&& paths(r@) == parts.flatten()
                &&& forall|k: int| 0 <= k < parts.len() ==> walks_to(inputs@[k], #[trigger] parts[k])
            },
{
    let mut acc: Vec<Vec<u8>> = Vec::new();
    let ghost mut parts: Seq<Seq<Seq<u8>>> = Seq::empty();
    let mut k: usize = 0;
    proof {
        assert(paths(acc@) =~= parts.flatten());
    }
    while k < inputs.len()
        invariant
            k <= inputs@.len(),
            parts.len() == k,
            paths(acc@) == parts.flatten(),
            forall|j: int| 0 <= j < k ==> walks_to(inputs@[j], #[trigger] parts[j]),
        decreases inputs@.len() - k,
    {
        let ghost mid = acc@;
        walk_into(&inputs[k], &mut acc);
        let ghost out = choose|out: Seq<Seq<u8>>| walks_to(inputs@[k as int], out) && paths(acc@) == paths(mid) + out;
        proof {
            vstd::seq_lib::lemma_flatten_concat(parts, seq![out]);
            assert(seq![out].flatten() =~= out) by {
                reveal_with_fuel(Seq::flatten, 2);
                assert(seq![out].drop_first() =~= Seq::<Seq<Seq<u8>>>::empty());
            }
            let ghost prev = parts;
            parts = parts.push(out);
            assert(parts =~= prev + seq![out]);
            assert(parts.flatten() =~= prev.flatten() + out);
        }
        k = k + 1;
    }
    acc
}

/// Entry `e` is what reading its path gives, and so is each entry under it:
/// `read` says what the file system gives for a path.
pub open spec fn read_as(read: spec_fn(Seq<u8>) -> Entry, e: Entry) -> bool
    decreases e,
{
    &&& read(entry_path(e)) == e
    &&& match e {
        Entry::Leaf(_) => true,
        Entry::Dir(_, cs) => forall|i: int|
            0 <= i < cs@.len() ==> read_as(read, #[trigger] cs@[i]),
    }
}

/// Reading path `q` gives a path that is not a directory that could be listed.
pub open spec fn reads_as_leaf(read: spec_fn(Seq<u8>) -> Entry, q: Seq<u8>) -> bool {
    read(q) matches Entry::Leaf(p) && p@ == q
}

/// The paths that concatenated parts hold each read as leaves where each
/// part's do.
proof fn lemma_flatten_leaves(read: spec_fn(Seq<u8>) -> Entry, parts: Seq<Seq<Seq<u8>>>)
    requires
        forall|k: int, i: int|
            0 <= k < parts.len() && 0 <= i < parts[k].len() ==> reads_as_leaf(read, #[trigger] parts[k][i]),
    ensures
        forall|i: int| 0 <= i < parts.flatten().len() ==> reads_as_leaf(read, #[trigger] parts.flatten()[i]),
    decreases parts.len(),
{
    if parts.len() > 0 {
        let rest = parts.drop_first();
        assert forall|k: int, i: int|
            0 <= k < rest.len() && 0 <= i < rest[k].len() implies reads_as_leaf(read, #[trigger] rest[k][i]) by {
            assert(rest[k] == parts[k + 1]);
        }
        lemma_flatten_leaves(read, rest);
        let f = parts.flatten();
        assert(f == parts[0] + rest.flatten());
        assert forall|i: int| 0 <= i < f.len() implies reads_as_leaf(read, #[trigger] f[i]) by {
            if i < parts[0].len() {
                assert(f[i] == parts[0][i]);
            } else {
                assert(f[i] == rest.flatten()[i - parts[0].len()]);
            }
        }
    }
}

/// What walking an entry that is what the file system gives yields are paths
/// that read as leaves: files, and directories that could not be listed.
pub proof fn lemma_walk_yields_leaves(read: spec_fn(Seq<u8>) -> Entry, e: Entry, out: Seq<Seq<u8>>)
    requires
        read_as(read, e),
        walks_to(e, out),
    ensures
        forall|i: int| 0 <= i < out.len() ==> reads_as_leaf(read, #[trigger] out[i]),
    decreases e,
{
    match e {
        Entry::Leaf(p) => {
            assert(out == seq![p@]);
            assert forall|i: int| 0 <= i < out.len() implies reads_as_leaf(read, #[trigger] out[i]) by {
                assert(out[i] == p@);
            }
        },
        Entry::Dir(_, cs) => {
            let (order, parts) = choose|order: Seq<usize>, parts: Seq<Seq<Seq<u8>>>|
                {
                    &&& is_sorted_order(cs@, order)
                    &&& parts.len() == cs@.len()
                    &&& out == parts.flatten()
                    &&& forall|k: int|
                        0 <= k < parts.len() ==> order[k] < cs@.len() && walks_to(
                            cs@[order[k] as int],
                            #[trigger] parts[k],
                        )
                };
            assert forall|k: int, i: int|
                0 <= k < parts.len() && 0 <= i < parts[k].len() implies reads_as_leaf(read, #[trigger] parts[k][i]) by {
                let c = cs@[order[k] as int];
                assert(decreases_to!(e => c));
                assert(read_as(read, c));
                assert(walks_to(c, parts[k]));
                lemma_walk_yields_leaves(read, c, parts[k]);
            }
            lemma_flatten_leaves(read, parts);
        },
    }
}

/// Law: on a file system that does not change, walking what a walk gave
/// changes nothing: each path it gave reads as a leaf, which walks to itself.
pub proof fn law_walking_twice(
    read: spec_fn(Seq<u8>) -> Entry,
    inputs: Seq<Entry>,
    parts: Seq<Seq<Seq<u8>>>,
    again: Seq<Seq<Seq<u8>>>,
)
    requires
        forall|k: int| 0 <= k < inputs.len() ==> read_as(read, #[trigger] inputs[k]),
        parts.len() == inputs.len(),
        forall|k: int| 0 <= k < parts.len() ==> walks_to(inputs[k], #[trigger] parts[k]),
        again.len() == parts.flatten().len(),
        forall|k: int|
            0 <= k < again.len() ==> walks_to(read(parts.flatten()[k]), #[trigger] again[k]),
    ensures
        again.flatten() == parts.flatten(),
{
    let out = parts.flatten();
    assert forall|k: int, i: int|
        0 <= k < parts.len() && 0 <= i < parts[k].len() implies reads_as_leaf(read, #[trigger] parts[k][i]) by {
        lemma_walk_yields_leaves(read, inputs[k], parts[k]);
    }
    lemma_flatten_leaves(read, parts);
    assert forall|k: int| 0 <= k < again.len() implies #[trigger] again[k] == seq![out[k]] by {
        assert(reads_as_leaf(read, out[k]));
    }
    lemma_flatten_singletons(again, out);
}

/// Concatenating one-element parts gives their elements.
proof fn lemma_flatten_singletons(parts: Seq<Seq<Seq<u8>>>, items: Seq<Seq<u8>>)
    requires
        parts.len() == items.len(),
        forall|k: int| 0 <= k < parts.len() ==> #[trigger] parts[k] == seq![items[k]],
    ensures
        parts.flatten() == items,
    decreases parts.len(),
{
    if parts.len() > 0 {
        let rest = parts.drop_first();
        assert forall|k: int| 0 <= k < rest.len() implies #[trigger] rest[k] == seq![items.drop_first()[k]] by {
            assert(rest[k] == parts[k + 1]);
        }
        lemma_flatten_singletons(rest, items.drop_first());
        assert(parts[0] == seq![items[0]]);
        assert(parts.flatten() == parts[0] + rest.flatten());
        assert(seq![items[0]] + items.drop_first() =~= items);
    } else {
        assert(items =~= Seq::<Seq<u8>>::empty());
    }
}

} // verus!
