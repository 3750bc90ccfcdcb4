//! Colouring of the interference graph.

use vstd::prelude::*;
use crate::assign::graph::{adjacent, neighbors, node_list, nodes, InterferenceGraph};
use crate::assign::live_set::Key;
use crate::x86::{callee_saved, caller_saved, Reg};

verus! {

/// The number of registers that variables can live in.
pub const PALETTE_SIZE: usize = 13;

/// The registers that variables can live in, in the order of their colours:
/// the caller-saved ones first, then the callee-saved ones. `RAX`, `RBP` and
/// `RSP` are kept for code generation and the calling convention.
pub open spec fn palette() -> Seq<Reg> {
    seq![
        Reg::RCX,
        Reg::RDX,
        Reg::RSI,
        Reg::RDI,
        Reg::R8,
        Reg::R9,
        Reg::R10,
        Reg::R11,
        Reg::RBX,
        Reg::R12,
        Reg::R13,
        Reg::R14,
        Reg::R15,
    ]
}

/// Whether the register numbered `n` is kept out of the palette: `RAX`,
/// `RSP` or `RBP`.
pub open spec fn reserved(n: usize) -> bool {
    n == 0 || n == 4 || n == 5
}

/// The colour that the register numbered `n` has from the start: its place
/// in the palette.
pub open spec fn reg_color(n: usize) -> usize {
    if n == 1 {
        0
    } else if n == 2 {
        1
    } else if n == 3 {
        8
    } else if n == 6 {
        2
    } else if n == 7 {
        3
    } else if n <= 11 {
        (n - 4) as usize
    } else {
        (n - 3) as usize
    }
}

/// The palette is made of the caller-saved registers but `RAX`, and of the
/// callee-saved registers but `RBP` and `RSP`.
pub proof fn lemma_palette()
    ensures
        palette() == caller_saved().skip(1) + callee_saved().take(5),
{
    assert(palette() =~= caller_saved().skip(1) + callee_saved().take(5));
}

/// The colours of the registers are their places in the palette.
pub proof fn lemma_reg_color(i: int)
    requires
        0 <= i < 13,
    ensures
        reg_color(palette()[i].number() as usize) == i,
        !reserved(palette()[i].number() as usize),
{
}

/// Whether `k` is the key of a register.
pub open spec fn is_reg(k: Key) -> bool {
    k.0 == 0 && k.1 < 16
}

/// Whether `k` is the key of a register that is kept out of the palette.
/// Such a register takes part in no colouring: it is the home of nothing
/// but itself.
pub open spec fn is_reserved(k: Key) -> bool {
    is_reg(k) && reserved(k.1)
}

/// Colours for the nodes of a graph.
#[derive(Debug)]
pub struct Coloring {
    keys: Vec<Key>,
    colors: Vec<usize>,
}

/// The map that sends `keys[i]` to `colors[i]`.
pub open spec fn color_map(keys: Seq<Key>, colors: Seq<usize>) -> Map<Key, usize> {
    Map::new(|k: Key| keys.contains(k), |k: Key| colors[keys.index_of(k)])
}

pub proof fn lemma_color_map(keys: Seq<Key>, colors: Seq<usize>, i: int)
    requires
        keys.no_duplicates(),
        0 <= i < keys.len(),
    ensures
        color_map(keys, colors).dom().contains(keys[i]),
        color_map(keys, colors)[keys[i]] == colors[i],
{
    assert(keys.contains(keys[i]));
    let j = keys.index_of(keys[i]);
    assert(0 <= j < keys.len() && keys[j] == keys[i]);
}

impl View for Coloring {
    type V = Map<Key, usize>;

    closed spec fn view(&self) -> Map<Key, usize> {
        color_map(self.keys@, self.colors@)
    }
}

/// Some neighbour of `k` other than `k` itself has the colour `d`.
pub open spec fn neighbor_has(c: Map<Key, usize>, edges: Set<(Key, Key)>, k: Key,
    d: usize) -> bool {
    exists|b: Key| #[trigger]
        edges.contains((k, b)) && b != k && c.dom().contains(b) && c[b] == d
}

/// The colouring `c` is one that the greedy method gives for the graph with
/// the given nodes and edges.
///
/// Every node has a colour but the registers that are kept out of the
/// palette; the others have the colour they have from the start. Two
/// different nodes that an edge connects differ in colour. And the colour
/// of a node that is no register is the least that it can be: every colour
/// below it is that of a neighbour.
pub open spec fn greedy(c: Map<Key, usize>, all: Set<Key>, edges: Set<(Key, Key)>) -> bool {
    &&& forall|k: Key|
        #![trigger c.dom().contains(k)]
        #![trigger all.contains(k)]
        c.dom().contains(k) <==> all.contains(k) && !is_reserved(k)
    &&& forall|k: Key| #[trigger] c.dom().contains(k) && is_reg(k) ==> c[k] == reg_color(k.1)
    &&& forall|a: Key, b: Key| #[trigger]
        edges.contains((a, b)) && a != b && c.dom().contains(a) && c.dom().contains(b) ==> c[a]
            != c[b]
    &&& forall|k: Key, d: usize|
        c.dom().contains(k) && !is_reg(k) && d < c[k] ==> #[trigger] neighbor_has(c, edges, k, d)
}

impl Coloring {
    #[verifier::type_invariant]
    pub closed spec fn wf(self) -> bool {
        self.keys@.no_duplicates() && self.keys@.len() == self.colors@.len()
    }

    /// The colour of the node `k`.
    pub fn get(&self, k: Key) -> (r: Option<usize>)
        ensures
            match r {
                Some(c) => self@.dom().contains(k) && self@[k] == c,
                None => !self@.dom().contains(k),
            },
    {
        proof {
            use_type_invariant(self);
        }
        match find_key(&self.keys, k) {
            Some(i) => {
                proof {
                    lemma_color_map(self.keys@, self.colors@, i as int);
                }
                Some(self.colors[i])
            },
            None => None,
        }
    }

    /// The number of nodes.
    pub fn len(&self) -> (n: usize)
        ensures
            n == self.nodes().len(),
            self.nodes().no_duplicates(),
            self.nodes().to_set() == self@.dom(),
    {
        proof {
            use_type_invariant(self);
            assert(self.keys@.to_set() =~= self@.dom());
        }
        self.keys.len()
    }

    /// The nodes, in the order in which they came into the graph.
    pub closed spec fn nodes(self) -> Seq<Key> {
        self.keys@
    }

    /// The `i`-th node and its colour.
    pub fn node_at(&self, i: usize) -> (r: (Key, usize))
        requires
            i < self.nodes().len(),
        ensures
            r.0 == self.nodes()[i as int],
            self@.dom().contains(r.0),
            r.1 == self@[r.0],
    {
        proof {
            use_type_invariant(self);
            lemma_color_map(self.keys@, self.colors@, i as int);
        }
        (self.keys[i], self.colors[i])
    }
}

/// Where `k` stands in `keys`.
fn find_key(keys: &Vec<Key>, k: Key) -> (r: Option<usize>)
    ensures
        match r {
            Some(i) => i < keys@.len() && keys@[i as int] == k,
            None => !keys@.contains(k),
        },
{
    let mut i: usize = 0;
    while i < keys.len()
        invariant
            i <= keys@.len(),
            forall|j: int| 0 <= j < i ==> keys@[j] != k,
        decreases keys@.len() - i,
    {
        if keys[i].0 == k.0 && keys[i].1 == k.1 {
            return Some(i);
        }
        i += 1;
    }
    None
}

/// Computes [`reg_color`].
fn initial_color(n: usize) -> (c: usize)
    requires
        n < 16,
        !reserved(n),
    ensures
        c == reg_color(n),
{
    if n == 1 {
        0
    } else if n == 2 {
        1
    } else if n == 3 {
        8
    } else if n == 6 {
        2
    } else if n == 7 {
        3
    } else if n <= 11 {
        n - 4
    } else {
        n - 3
    }
}

/// How many of the first `n` entries of `s` are set.
spec fn count_set(s: Seq<bool>, n: int) -> nat
    decreases n,
{
    if n <= 0 {
        0
    } else {
        count_set(s, n - 1) + if s[n - 1] {
            1nat
        } else {
            0nat
        }
    }
}

proof fn lemma_count_set_update(s: Seq<bool>, i: int, n: int)
    requires
        0 <= i < s.len(),
        0 <= n <= s.len(),
        !s[i],
    ensures
        count_set(s.update(i, true), n) == count_set(s, n) + if i < n {
            1nat
        } else {
            0nat
        },
    decreases n,
{
    if n > 0 {
        lemma_count_set_update(s, i, n - 1);
    }
}

proof fn lemma_count_set_full(s: Seq<bool>, n: int)
    requires
        0 <= n <= s.len(),
        count_set(s, n) < n,
    ensures
        exists|i: int| 0 <= i < n && !s[i],
    decreases n,
{
    if n > 0 {
        if s[n - 1] {
            lemma_count_set_full(s, n - 1);
        }
    }
}

proof fn lemma_count_all(s: Seq<bool>, n: int)
    requires
        0 <= n <= s.len(),
        forall|j: int| 0 <= j < n ==> s[j],
    ensures
        count_set(s, n) == n,
    decreases n,
{
    if n > 0 {
        lemma_count_all(s, n - 1);
    }
}

/// How many of the first `k` entries of `used` are below `n`.
spec fn count_below(used: Seq<usize>, k: int, n: int) -> nat
    decreases k,
{
    if k <= 0 {
        0
    } else {
        count_below(used, k - 1, n) + if used[k - 1] < n {
            1nat
        } else {
            0nat
        }
    }
}

proof fn lemma_count_below(used: Seq<usize>, k: int, n: int, m: int)
    requires
        0 <= m < k <= used.len(),
        used[m] >= n,
    ensures
        count_below(used, k, n) < k,
    decreases k,
{
    lemma_count_below_all(used, k - 1, n);
    if m < k - 1 {
        lemma_count_below(used, k - 1, n, m);
    }
}

proof fn lemma_count_below_all(used: Seq<usize>, k: int, n: int)
    requires
        0 <= k <= used.len(),
    ensures
        count_below(used, k, n) <= k,
    decreases k,
{
    if k > 0 {
        lemma_count_below_all(used, k - 1, n);
    }
}

/// The least colour that is not in `used`.
fn lowest_free(used: &Vec<usize>) -> (c: usize)
    ensures
        c <= used@.len(),
        !used@.contains(c),
        forall|d: usize| d < c ==> used@.contains(d),
{
    let n = used.len();
    let mut taken: Vec<bool> = Vec::new();
    let mut i: usize = 0;
    while i < n
        invariant
            i <= n,
            taken@.len() == i,
            forall|j: int| 0 <= j < i ==> !taken@[j],
        decreases n - i,
    {
        taken.push(false);
        i += 1;
    }
    proof {
        lemma_count_clear(taken@, n as int);
    }
    let mut k: usize = 0;
    while k < n
        invariant
            k <= n,
            n == used@.len(),
            taken@.len() == n,
            count_set(taken@, n as int) <= count_below(used@, k as int, n as int),
            forall|d: int|
                0 <= d < n ==> (#[trigger] taken@[d] <==> exists|m: int|
                    0 <= m < k && used@[m] == d),
        decreases n - k,
    {
        let c = used[k];
        let ghost before = taken@;
        if c < n {
            if !taken[c] {
                taken.set(c, true);
                proof {
                    lemma_count_set_update(before, c as int, n as int);
                }
            }
        }
        proof {
            assert forall|d: int| 0 <= d < n implies (#[trigger] taken@[d] <==> exists|m: int|
                0 <= m < k + 1 && used@[m] == d) by {
                if exists|m: int| 0 <= m < k + 1 && used@[m] == d {
                    let m = choose|m: int| 0 <= m < k + 1 && used@[m] == d;
                    if m < k {
                        assert(before[d]);
                    }
                }
                if before[d] {
                    let m = choose|m: int| 0 <= m < k && used@[m] == d;
                    assert(0 <= m < k + 1 && used@[m] == d);
                }
                if d == c {
                    assert(used@[k as int] == d);
                }
            }
        }
        k += 1;
    }
    let mut c: usize = 0;
    while c < n && taken[c]
        invariant
            c <= n,
            taken@.len() == n,
            forall|d: int| 0 <= d < c ==> taken@[d],
        decreases n - c,
    {
        c += 1;
    }
    proof {
        assert(!used@.contains(c)) by {
            if used@.contains(c) {
                let m = choose|m: int| 0 <= m < used@.len() && used@[m] == c;
                if c < n {
                    assert(taken@[c as int]);
                } else {
                    lemma_count_all(taken@, n as int);
                    lemma_count_below(used@, n as int, n as int, m);
                }
            }
        }
        assert forall|d: usize| d < c implies used@.contains(d) by {
            assert(taken@[d as int]);
            let m = choose|m: int| 0 <= m < n && used@[m] == d as int;
            assert(used@[m] == d);
        }
    }
    c
}

proof fn lemma_count_clear(s: Seq<bool>, n: int)
    requires
        0 <= n <= s.len(),
        forall|j: int| 0 <= j < n ==> !s[j],
    ensures
        count_set(s, n) == 0,
    decreases n,
{
    if n > 0 {
        lemma_count_clear(s, n - 1);
    }
}


/// The colours that the neighbours of the `i`-th node have so far.
pub open spec fn neighbor_colors_of(
    keys: Seq<Key>,
    work: Seq<Option<usize>>,
    edges: Set<(Key, Key)>,
    i: int,
) -> Set<usize> {
    Set::new(|d: usize| colored_neighbor(keys, work, edges, i, d))
}

/// The saturation of the `i`-th node: how many different colours its
/// neighbours have so far.
pub open spec fn saturation_of(
    keys: Seq<Key>,
    work: Seq<Option<usize>>,
    edges: Set<(Key, Key)>,
    i: int,
) -> nat {
    neighbor_colors_of(keys, work, edges, i).len()
}

/// The degree of the node `k`: how many neighbours it has.
pub open spec fn degree_of(edges: Set<(Key, Key)>, k: Key) -> nat {
    Set::new(|b: Key| edges.contains((k, b))).len()
}

/// Whether the `a`-th node is to be coloured before the `b`-th: it is more
/// saturated, or as saturated and of higher degree.
pub open spec fn before(
    keys: Seq<Key>,
    work: Seq<Option<usize>>,
    edges: Set<(Key, Key)>,
    a: int,
    b: int,
) -> bool {
    let sa = saturation_of(keys, work, edges, a);
    let sb = saturation_of(keys, work, edges, b);
    sa > sb || (sa == sb && degree_of(edges, keys[a]) > degree_of(edges, keys[b]))
}

/// Whether the `i`-th node is the one to colour next: it has no colour,
/// no node without colour comes before it, and it is the first such node.
pub open spec fn is_next(
    keys: Seq<Key>,
    work: Seq<Option<usize>>,
    edges: Set<(Key, Key)>,
    i: int,
) -> bool {
    &&& 0 <= i < keys.len()
    &&& work.len() == keys.len()
    &&& work[i] is None
    &&& forall|j: int|
        0 <= j < keys.len() && work[j] is None ==> !#[trigger] before(keys, work, edges, j, i)
    &&& forall|j: int| 0 <= j < i && work[j] is None ==> #[trigger] before(keys, work, edges, i, j)
}

/// Whether `c` is the least colour that is not in `taken`.
pub open spec fn least_free(taken: Set<usize>, c: usize) -> bool {
    !taken.contains(c) && forall|d: usize| d < c ==> taken.contains(d)
}

/// The colours once every node has one: as long as a node is without
/// colour, the node that [`is_next`] gets the least colour that none of its
/// neighbours has.
pub open spec fn colored(keys: Seq<Key>, work: Seq<Option<usize>>, edges: Set<(Key, Key)>) -> Seq<
    Option<usize>,
>
    decreases uncolored(work, work.len() as int),
{
    if exists|i: int| is_next(keys, work, edges, i) {
        let i = choose|i: int| is_next(keys, work, edges, i);
        let c = choose|c: usize| least_free(neighbor_colors_of(keys, work, edges, i), c);
        proof {
            lemma_uncolored(work, i, c, work.len() as int);
        }
        colored(keys, work.update(i, Some(c)), edges)
    } else {
        work
    }
}

/// The colours before any node is coloured: registers have theirs.
pub open spec fn precolored(keys: Seq<Key>) -> Seq<Option<usize>> {
    Seq::new(
        keys.len(),
        |i: int|
            if is_reg(keys[i]) {
                Some(reg_color(keys[i].1))
            } else {
                None
            },
    )
}

/// Whether `c` is the colouring of the graph with the given nodes and
/// edges, where `order` is the order in which the graph lists those of its
/// nodes that get a colour: `c` gives every node the colour that
/// [`colored`] ends with, and so is [`greedy`].
pub open spec fn is_coloring(
    c: Map<Key, usize>,
    order: Seq<Key>,
    all: Set<Key>,
    edges: Set<(Key, Key)>,
) -> bool {
    &&& greedy(c, all, edges)
    &&& order.no_duplicates()
    &&& forall|k: Key| order.contains(k) <==> all.contains(k) && !is_reserved(k)
    &&& forall|i: int|
        0 <= i < order.len() ==> colored(order, precolored(order), edges)[i] == Some(
            #[trigger] c[order[i]],
        )
}

/// Colouring the node that is next is one step towards [`colored`].
proof fn lemma_colored_step(
    keys: Seq<Key>,
    work: Seq<Option<usize>>,
    edges: Set<(Key, Key)>,
    i: int,
    c: usize,
)
    requires
        is_next(keys, work, edges, i),
        least_free(neighbor_colors_of(keys, work, edges, i), c),
    ensures
        colored(keys, work, edges) == colored(keys, work.update(i, Some(c)), edges),
{
    let i2 = choose|i: int| is_next(keys, work, edges, i);
    assert(is_next(keys, work, edges, i2));
    if i2 < i {
        assert(before(keys, work, edges, i, i2));
        assert(!before(keys, work, edges, i, i2));
    } else if i < i2 {
        assert(before(keys, work, edges, i2, i));
        assert(!before(keys, work, edges, i2, i));
    }
    let taken = neighbor_colors_of(keys, work, edges, i);
    let c2 = choose|c: usize| least_free(taken, c);
    assert(least_free(taken, c2));
    if c2 < c {
        assert(taken.contains(c2));
    } else if c < c2 {
        assert(taken.contains(c));
    }
}

/// With a colour for every node, nothing is left to do.
proof fn lemma_colored_done(keys: Seq<Key>, work: Seq<Option<usize>>, edges: Set<(Key, Key)>)
    requires
        forall|i: int| 0 <= i < keys.len() ==> work[i] is Some,
    ensures
        colored(keys, work, edges) == work,
{
}

/// What holds of the colours given so far.
spec fn partial(keys: Seq<Key>, work: Seq<Option<usize>>, edges: Set<(Key, Key)>) -> bool {
    &&& work.len() == keys.len()
    &&& keys.no_duplicates()
    &&& forall|i: int|
        0 <= i < keys.len() && is_reg(#[trigger] keys[i]) ==> !reserved(keys[i].1) && work[i]
            == Some(reg_color(keys[i].1))
    &&& forall|i: int, j: int|
        0 <= i < keys.len() && 0 <= j < keys.len() && i != j && edges.contains(
            (#[trigger] keys[i], #[trigger] keys[j]),
        ) && work[i] is Some && work[j] is Some ==> work[i] != work[j]
    &&& forall|i: int, d: usize|
        0 <= i < keys.len() && !is_reg(keys[i]) && work[i] is Some && d < work[i]->Some_0
            ==> #[trigger] colored_neighbor(keys, work, edges, i, d)
}

/// Some node other than the `i`-th is a neighbour of it and has the colour `d`.
pub open spec fn colored_neighbor(
    keys: Seq<Key>,
    work: Seq<Option<usize>>,
    edges: Set<(Key, Key)>,
    i: int,
    d: usize,
) -> bool {
    exists|j: int|
        0 <= j < keys.len() && j != i && edges.contains((keys[i], #[trigger] keys[j])) && work[j]
            == Some(d)
}

/// How many of the first `n` nodes have no colour yet.
pub open spec fn uncolored(work: Seq<Option<usize>>, n: int) -> nat
    decreases n,
{
    if n <= 0 {
        0
    } else {
        uncolored(work, n - 1) + if work[n - 1] is None {
            1nat
        } else {
            0nat
        }
    }
}

pub proof fn lemma_uncolored(work: Seq<Option<usize>>, i: int, c: usize, n: int)
    requires
        0 <= i < work.len(),
        0 <= n <= work.len(),
        work[i] is None,
    ensures
        uncolored(work.update(i, Some(c)), n) + (if i < n {
            1nat
        } else {
            0nat
        }) == uncolored(work, n),
    decreases n,
{
    if n > 0 {
        lemma_uncolored(work, i, c, n - 1);
    }
}

/// The colours of the neighbours of the `i`-th node that have one.
fn neighbor_colors(g: &InterferenceGraph, keys: &Vec<Key>, work: &Vec<Option<usize>>,
    i: usize) -> (r:
    (Vec<usize>, usize))
    requires
        i < keys@.len(),
        work@.len() == keys@.len(),
        keys@.no_duplicates(),
    ensures
        forall|d: usize|
            r.0@.contains(d) <==> colored_neighbor(keys@, work@, adjacent(*g), i as int, d),
        r.0@.to_set() == neighbor_colors_of(keys@, work@, adjacent(*g), i as int),
        r.1 == degree_of(adjacent(*g), keys@[i as int]),
        forall|b: Key|
            adjacent(*g).contains((b, keys@[i as int])) ==> adjacent(*g).contains(
                (keys@[i as int], b),
            ),
{
    let nb = neighbors(g, keys[i]);
    let mut used: Vec<usize> = Vec::new();
    let mut t: usize = 0;
    let ghost me = keys@[i as int];
    while t < nb.len()
        invariant
            t <= nb@.len(),
            i < keys@.len(),
            me == keys@[i as int],
            work@.len() == keys@.len(),
            keys@.no_duplicates(),
            forall|d: usize|
                #![trigger used@.contains(d)]
                used@.contains(d) <==> exists|m: int, j: int|
                    0 <= m < t && 0 <= j < keys@.len() && j != i && #[trigger] nb@[m]
                        == #[trigger] keys@[j] && work@[j] == Some(d),
        decreases nb@.len() - t,
    {
        let ghost before = used@;
        match find_key(keys, nb[t]) {
            Some(j) => {
                if j != i {
                    if let Some(d) = work[j] {
                        used.push(d);
                        proof {
                            lemma_pushed_color(before, d);
                        }
                    }
                }
            },
            None => {},
        }
        proof {
            assert forall|d: usize|
                #![trigger used@.contains(d)]
                used@.contains(d) <==> exists|m: int, j: int|
                    0 <= m < t + 1 && 0 <= j < keys@.len() && j != i && #[trigger] nb@[m]
                        == #[trigger] keys@[j] && work@[j] == Some(d) by {
                if before.contains(d) {
                    let (m, j) = choose|m: int, j: int|
                        0 <= m < t && 0 <= j < keys@.len() && j != i && #[trigger] nb@[m]
                            == #[trigger] keys@[j] && work@[j] == Some(d);
                    assert(0 <= m < t + 1 && nb@[m] == keys@[j]);
                }
                if exists|m: int, j: int|
                    0 <= m < t + 1 && 0 <= j < keys@.len() && j != i && #[trigger] nb@[m]
                        == #[trigger] keys@[j] && work@[j] == Some(d) {
                    let (m, j) = choose|m: int, j: int|
                        0 <= m < t + 1 && 0 <= j < keys@.len() && j != i && #[trigger] nb@[m]
                            == #[trigger] keys@[j] && work@[j] == Some(d);
                    if m < t {
                        assert(before.contains(d));
                    } else {
                        assert(nb@[t as int] == keys@[j]);
                    }
                }
            }
        }
        t += 1;
    }
    proof {
        assert forall|b: Key| adjacent(*g).contains((b, keys@[i as int])) implies adjacent(
            *g,
        ).contains((keys@[i as int], b)) by {
            assert(nb@.contains(b));
        }
        assert forall|d: usize|
            used@.contains(d) <==> colored_neighbor(keys@, work@, adjacent(*g), i as int, d) by {
            if used@.contains(d) {
                let (m, j) = choose|m: int, j: int|
                    0 <= m < nb@.len() && 0 <= j < keys@.len() && j != i && #[trigger] nb@[m]
                        == #[trigger] keys@[j] && work@[j] == Some(d);
                assert(nb@.contains(keys@[j]));
                assert(adjacent(*g).contains((me, keys@[j])));
            }
            if colored_neighbor(keys@, work@, adjacent(*g), i as int, d) {
                let j = choose|j: int|
                    0 <= j < keys@.len() && j != i && adjacent(*g).contains(
                        (keys@[i as int], #[trigger] keys@[j]),
                    ) && work@[j] == Some(d);
                assert(nb@.contains(keys@[j]));
                let m = choose|m: int| 0 <= m < nb@.len() && nb@[m] == keys@[j];
                assert(0 <= m < nb@.len() && nb@[m] == keys@[j]);
            }
        }
    }
    proof {
        assert(used@.to_set() =~= neighbor_colors_of(keys@, work@, adjacent(*g), i as int));
        nb@.unique_seq_to_set();
        assert(nb@.to_set() =~= Set::new(|b: Key| adjacent(*g).contains((me, b))));
    }
    (used, nb.len())
}

proof fn lemma_pushed_color(s: Seq<usize>, a: usize)
    ensures
        forall|x: usize| s.push(a).contains(x) <==> s.contains(x) || x == a,
{
    assert forall|x: usize| s.push(a).contains(x) <==> s.contains(x) || x == a by {
        if s.push(a).contains(x) {
            let i = choose|i: int| 0 <= i < s.push(a).len() && s.push(a)[i] == x;
            if i < s.len() {
                assert(s[i] == x);
            }
        }
        if s.contains(x) {
            let i = choose|i: int| 0 <= i < s.len() && s[i] == x;
            assert(s.push(a)[i] == x);
        }
        if x == a {
            assert(s.push(a)[s.len() as int] == x);
        }
    }
}

/// The number of different colours in `used`.
fn saturation(used: &Vec<usize>) -> (count: usize)
    ensures
        count == used@.to_set().len(),
{
    let mut count: usize = 0;
    let mut i: usize = 0;
    assert(used@.take(0).to_set() =~= Set::<usize>::empty());
    while i < used.len()
        invariant
            i <= used@.len(),
            count <= i,
            count == used@.take(i as int).to_set().len(),
        decreases used@.len() - i,
    {
        let mut seen = false;
        let mut j: usize = 0;
        while j < i
            invariant
                j <= i,
                i < used@.len(),
                seen <==> exists|m: int| 0 <= m < j && used@[m] == used@[i as int],
            decreases i - j,
        {
            if used[j] == used[i] {
                seen = true;
            }
            j += 1;
        }
        proof {
            let before = used@.take(i as int);
            let after = used@.take(i + 1);
            vstd::seq_lib::seq_to_set_is_finite(before);
            assert(after =~= before.push(used@[i as int]));
            lemma_pushed_color(before, used@[i as int]);
            assert forall|y: usize| after.to_set().contains(y) <==> before.to_set().insert(
                used@[i as int],
            ).contains(y) by {
                assert(after.to_set().contains(y) <==> after.contains(y));
                assert(before.to_set().contains(y) <==> before.contains(y));
            }
            assert(after.to_set() =~= before.to_set().insert(used@[i as int]));
            assert(seen <==> before.to_set().contains(used@[i as int])) by {
                if seen {
                    let m = choose|m: int| 0 <= m < i && used@[m] == used@[i as int];
                    assert(before[m] == used@[i as int]);
                }
                if before.contains(used@[i as int]) {
                    let m = choose|m: int| 0 <= m < before.len() && before[m] == used@[i as int];
                    assert(used@[m] == used@[i as int]);
                }
            }
        }
        if !seen {
            count += 1;
        }
        i += 1;
    }
    assert(used@.take(i as int) =~= used@);
    count
}

/// Picks the node to colour next: one without a colour whose neighbours
/// have the most different colours, among such nodes one with the most
/// neighbours, and among those the first.
fn select(g: &InterferenceGraph, keys: &Vec<Key>, work: &Vec<Option<usize>>) -> (r: Option<usize>)
    requires
        work@.len() == keys@.len(),
        keys@.no_duplicates(),
    ensures
        match r {
            Some(i) => is_next(keys@, work@, adjacent(*g), i as int),
            None => forall|i: int| 0 <= i < keys@.len() ==> work@[i] is Some,
        },
{
    let ghost edges = adjacent(*g);
    let mut best: Option<usize> = None;
    let mut best_saturation: usize = 0;
    let mut best_degree: usize = 0;
    let mut i: usize = 0;
    while i < keys.len()
        invariant
            i <= keys@.len(),
            work@.len() == keys@.len(),
            keys@.no_duplicates(),
            edges == adjacent(*g),
            match best {
                Some(b) => {
                    &&& b < i
                    &&& work@[b as int] is None
                    &&& best_saturation == saturation_of(keys@, work@, edges, b as int)
                    &&& best_degree == degree_of(edges, keys@[b as int])
                    &&& forall|j: int|
                        0 <= j < i && work@[j] is None ==> !#[trigger] before(
                            keys@,
                            work@,
                            edges,
                            j,
                            b as int,
                        )
                    &&& forall|j: int|
                        0 <= j < b && work@[j] is None ==> #[trigger] before(
                            keys@,
                            work@,
                            edges,
                            b as int,
                            j,
                        )
                },
                None => forall|j: int| 0 <= j < i ==> work@[j] is Some,
            },
        decreases keys@.len() - i,
    {
        if work[i].is_none() {
            let (used, degree) = neighbor_colors(g, keys, work, i);
            let sat = saturation(&used);
            let better = match best {
                None => true,
                Some(_) => sat > best_saturation || (sat == best_saturation && degree
                    > best_degree),
            };
            let ghost previous = best;
            if better {
                best = Some(i);
                best_saturation = sat;
                best_degree = degree;
            }
            proof {
                let me = i as int;
                assert(sat == saturation_of(keys@, work@, edges, me));
                match previous {
                    Some(b0) => {
                        if better {
                            assert(before(keys@, work@, edges, me, b0 as int));
                            assert forall|j: int|
                                0 <= j < i + 1 && work@[j] is None implies !#[trigger] before(
                                keys@,
                                work@,
                                edges,
                                j,
                                me,
                            ) by {
                                if j < i {
                                    assert(!before(keys@, work@, edges, j, b0 as int));
                                }
                            }
                            assert forall|j: int|
                                0 <= j < me && work@[j] is None implies #[trigger] before(
                                keys@,
                                work@,
                                edges,
                                me,
                                j,
                            ) by {
                                assert(!before(keys@, work@, edges, j, b0 as int));
                            }
                        } else {
                            assert(!before(keys@, work@, edges, me, b0 as int));
                        }
                    },
                    None => {},
                }
            }
        }
        i += 1;
    }
    match best {
        Some(b) => {
            assert(is_next(keys@, work@, adjacent(*g), b as int));
        },
        None => {},
    }
    best
}

/// Colours the graph: registers keep their place in the palette, and the
/// other nodes are coloured one by one, the most saturated first, each
/// with the least colour that none of its neighbours has.
pub fn color_graph(g: &InterferenceGraph) -> (c: Coloring)
    ensures
        is_coloring(c@, c.nodes(), nodes(*g), adjacent(*g)),
{
    let all = node_list(g);
    let mut keys: Vec<Key> = Vec::new();
    let mut work: Vec<Option<usize>> = Vec::new();
    let mut t: usize = 0;
    while t < all.len()
        invariant
            t <= all@.len(),
            all@.no_duplicates(),
            work@.len() == keys@.len(),
            keys@.no_duplicates(),
            forall|k: Key|
                #![trigger keys@.contains(k)]
                keys@.contains(k) <==> all@.take(t as int).contains(k) && !is_reserved(k),
            forall|i: int|
                0 <= i < keys@.len() ==> if is_reg(#[trigger] keys@[i]) {
                    work@[i] == Some(reg_color(keys@[i].1))
                } else {
                    work@[i] is None
                },
        decreases all@.len() - t,
    {
        let k = all[t];
        let ghost keys0 = keys@;
        proof {
            lemma_pushed_key(all@.take(t as int), k);
            assert(all@.take(t + 1) =~= all@.take(t as int).push(k));
            if all@.take(t as int).contains(k) {
                let m = choose|m: int| 0 <= m < t && all@.take(t as int)[m] == k;
                assert(all@[m] == all@[t as int]);
            }
        }
        if k.0 == 0 && k.1 < 16 {
            if !(k.1 == 0 || k.1 == 4 || k.1 == 5) {
                keys.push(k);
                work.push(Some(initial_color(k.1)));
                proof {
                    lemma_pushed_key(keys0, k);
                }
            }
        } else {
            keys.push(k);
            work.push(None);
            proof {
                lemma_pushed_key(keys0, k);
            }
        }
        proof {
            assert forall|x: Key|
                #![trigger keys@.contains(x)]
                keys@.contains(x) <==> all@.take(t + 1).contains(x) && !is_reserved(x) by {
                assert(keys0.contains(x) <==> all@.take(t as int).contains(x) && !is_reserved(x));
                assert(all@.take(t + 1).contains(x) <==> all@.take(t as int).contains(x) || x == k);
                if is_reserved(k) {
                    assert(keys@ == keys0);
                } else {
                    assert(keys@.contains(x) <==> keys0.contains(x) || x == k);
                }
            }
        }
        t += 1;
    }
    assert(all@.take(t as int) =~= all@);
    let n = keys.len();
    assert(partial(keys@, work@, adjacent(*g))) by {
        assert forall|i: int, j: int|
            0 <= i < keys@.len() && 0 <= j < keys@.len() && i != j && adjacent(*g).contains(
                (#[trigger] keys@[i], #[trigger] keys@[j]),
            ) && work@[i] is Some && work@[j] is Some implies work@[i] != work@[j] by {
            assert(is_reg(keys@[i]) && is_reg(keys@[j]));
            assert(keys@[i] != keys@[j]);
            assert(keys@.contains(keys@[i]) && keys@.contains(keys@[j]));
        }
        assert forall|i: int|
            0 <= i < keys@.len() && is_reg(#[trigger] keys@[i]) implies !reserved(keys@[i].1)
            && work@[i] == Some(reg_color(keys@[i].1)) by {
            assert(keys@.contains(keys@[i]));
        }
    }
    assert(work@ =~= precolored(keys@));
    let ghost goal = colored(keys@, precolored(keys@), adjacent(*g));
    let mut next = select(g, &keys, &work);
    while next.is_some()
        invariant
            n == keys@.len(),
            partial(keys@, work@, adjacent(*g)),
            colored(keys@, work@, adjacent(*g)) == goal,
            match next {
                Some(i) => is_next(keys@, work@, adjacent(*g), i as int),
                None => forall|i: int| 0 <= i < keys@.len() ==> work@[i] is Some,
            },
        decreases uncolored(work@, n as int),
    {
        let i = next.unwrap();
        let (used, _) = neighbor_colors(g, &keys, &work, i);
        let c = lowest_free(&used);
        let ghost work0 = work@;
        work.set(i, Some(c));
        proof {
            lemma_uncolored(work0, i as int, c, n as int);
            let edges = adjacent(*g);
            assert(least_free(neighbor_colors_of(keys@, work0, edges, i as int), c)) by {
                assert(used@.to_set() == neighbor_colors_of(keys@, work0, edges, i as int));
                assert forall|d: usize| d < c implies used@.to_set().contains(d) by {
                    assert(used@.contains(d));
                }
            }
            lemma_colored_step(keys@, work0, edges, i as int, c);
            assert(!is_reg(keys@[i as int]));
            assert forall|a: int, b: int|
                0 <= a < keys@.len() && 0 <= b < keys@.len() && a != b && edges.contains(
                    (#[trigger] keys@[a], #[trigger] keys@[b]),
                ) && work@[a] is Some && work@[b] is Some implies work@[a] != work@[b] by {
                if a == i {
                    if work0[b] == Some(c) {
                        assert(colored_neighbor(keys@, work0, edges, i as int, c));
                    }
                } else if b == i {
                    if work0[a] == Some(c) {
                        assert(edges.contains((keys@[b], keys@[a])));
                        assert(colored_neighbor(keys@, work0, edges, i as int, c));
                    }
                }
            }
            assert forall|a: int, d: usize|
                0 <= a < keys@.len() && !is_reg(keys@[a]) && work@[a] is Some && d
                    < work@[a]->Some_0 implies #[trigger] colored_neighbor(
                keys@,
                work@,
                edges,
                a,
                d,
            ) by {
                if a == i {
                    assert(used@.contains(d));
                    assert(colored_neighbor(keys@, work0, edges, a, d));
                } else {
                    assert(colored_neighbor(keys@, work0, edges, a, d));
                }
                let j = choose|j: int|
                    0 <= j < keys@.len() && j != a
                        && edges.contains((keys@[a], #[trigger] keys@[j]))
                        && work0[j] == Some(d);
                assert(work@[j] == Some(d));
            }
        }
        next = select(g, &keys, &work);
    }
    proof {
        lemma_colored_done(keys@, work@, adjacent(*g));
    }
    let mut colors: Vec<usize> = Vec::new();
    let mut i: usize = 0;
    while i < n
        invariant
            i <= n,
            n == keys@.len(),
            work@.len() == n,
            colors@.len() == i,
            forall|j: int| 0 <= j < n ==> work@[j] is Some,
            forall|j: int| 0 <= j < i ==> work@[j] == Some(colors@[j]),
        decreases n - i,
    {
        match work[i] {
            Some(c) => colors.push(c),
            None => colors.push(0),
        }
        i += 1;
    }
    let c = Coloring { keys, colors };
    proof {
        let edges = adjacent(*g);
        let ks = c.keys@;
        let cs = c.colors@;
        assert forall|i: int| 0 <= i < c.nodes().len() implies colored(
            c.nodes(),
            precolored(c.nodes()),
            edges,
        )[i] == Some(#[trigger] c@[c.nodes()[i]]) by {
            lemma_color_map(ks, cs, i);
        }
        assert forall|k: Key| c.nodes().contains(k) <==> nodes(*g).contains(k) && !is_reserved(
            k,
        ) by {
            assert(all@.contains(k) <==> all@.to_set().contains(k));
        }
        assert(all@.to_set() == nodes(*g));
        assert forall|k: Key| c@.dom().contains(k) <==> nodes(*g).contains(k) && !is_reserved(
            k,
        ) by {
            assert(all@.contains(k) <==> all@.to_set().contains(k));
        }
        assert forall|k: Key| #[trigger] c@.dom().contains(k) && is_reg(k) implies c@[k]
            == reg_color(k.1) by {
            let i = ks.index_of(k);
            assert(0 <= i < ks.len() && ks[i] == k);
        }
        assert forall|a: Key, b: Key| #[trigger]
            edges.contains((a, b)) && a != b && c@.dom().contains(a) && c@.dom().contains(
                b,
            ) implies c@[a] != c@[b] by {
            let i = ks.index_of(a);
            let j = ks.index_of(b);
            assert(0 <= i < ks.len() && ks[i] == a);
            assert(0 <= j < ks.len() && ks[j] == b);
            assert(work@[i] is Some && work@[j] is Some);
        }
        assert forall|k: Key, d: usize|
            c@.dom().contains(k) && !is_reg(k) && d < c@[k] implies #[trigger] neighbor_has(
            c@,
            edges,
            k,
            d,
        ) by {
            let i = ks.index_of(k);
            assert(0 <= i < ks.len() && ks[i] == k);
            assert(work@[i] == Some(cs[i]));
            assert(colored_neighbor(ks, work@, edges, i, d));
            let j = choose|j: int|
                0 <= j < ks.len() && j != i && edges.contains((ks[i], #[trigger] ks[j])) && work@[j]
                    == Some(d);
            lemma_color_map(ks, cs, j);
            assert(edges.contains((k, ks[j])) && ks[j] != k && c@.dom().contains(ks[j]) && c@[ks[j]]
                == d);
        }
    }
    c
}

proof fn lemma_pushed_key(s: Seq<Key>, a: Key)
    ensures
        forall|x: Key| s.push(a).contains(x) <==> s.contains(x) || x == a,
        s.no_duplicates() && !s.contains(a) ==> s.push(a).no_duplicates(),
{
    assert forall|x: Key| s.push(a).contains(x) <==> s.contains(x) || x == a by {
        if s.push(a).contains(x) {
            let i = choose|i: int| 0 <= i < s.push(a).len() && s.push(a)[i] == x;
            if i < s.len() {
                assert(s[i] == x);
            }
        }
        if s.contains(x) {
            let i = choose|i: int| 0 <= i < s.len() && s[i] == x;
            assert(s.push(a)[i] == x);
        }
        if x == a {
            assert(s.push(a)[s.len() as int] == x);
        }
    }
    if s.no_duplicates() && !s.contains(a) {
        assert forall|i: int, j: int|
            0 <= i < s.push(a).len() && 0 <= j < s.push(a).len() && i != j implies s.push(a)[i]
            != s.push(a)[j] by {
            if i == s.len() {
                assert(s[j] != a);
            } else if j == s.len() {
                assert(s[i] != a);
            }
        }
    }
}

} // verus!
