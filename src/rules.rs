use vstd::prelude::*;
use vstd::arithmetic::power2::{pow2, lemma_pow2_unfold};

use crate::cell::CellType;
use crate::cell::CellType::{Empty, Sand, Wall};

verus! {

/// A 2x2 block read in the order top-left, top-right, bottom-left,
/// bottom-right.
pub type Pattern = [CellType; 4];

/// An input pattern and the block that replaces it.
pub type Rule = (Pattern, Pattern);

/// A rule as a pair of four-cell sequences.
pub type RuleView = (Seq<CellType>, Seq<CellType>);

/// The largest authored list that [`Rules::build`] takes: the texture sizes
/// derived from it must fit in `u32`.
pub const MAX_BASE_RULES: usize = 0x1000_0000;

/// Swaps the left and right columns of a block.
pub open spec fn mirror(p: Seq<CellType>) -> Seq<CellType> {
    seq![p[1], p[0], p[3], p[2]]
}

pub open spec fn mirror_rule(r: RuleView) -> RuleView {
    (mirror(r.0), mirror(r.1))
}

pub open spec fn rule_view(r: Rule) -> RuleView {
    (r.0@, r.1@)
}

pub open spec fn rules_view(v: Seq<Rule>) -> Seq<RuleView> {
    Seq::new(v.len(), |i: int| rule_view(v[i]))
}

/// Each authored rule followed by its column-mirrored twin.
pub open spec fn expand(base: Seq<RuleView>) -> Seq<RuleView> {
    Seq::new(
        2 * base.len(),
        |i: int|
            if i % 2 == 0 {
                base[i / 2]
            } else {
                mirror_rule(base[i / 2])
            },
    )
}

/// Some entry of `t` has input `p`.
pub open spec fn is_key(t: Seq<RuleView>, p: Seq<CellType>) -> bool {
    exists|i: int| 0 <= i < t.len() && #[trigger] t[i].0 == p
}

/// Entries with equal inputs have equal outputs: `t` is a mapping.
pub open spec fn consistent(t: Seq<RuleView>) -> bool {
    forall|i: int, j: int|
        0 <= i < t.len() && 0 <= j < t.len() && #[trigger] t[i].0 == #[trigger] t[j].0 ==> t[i].1
            == t[j].1
}

/// What the table maps `p` to; a pattern that is no key stays as it is.
pub open spec fn lookup(t: Seq<RuleView>, p: Seq<CellType>) -> Seq<CellType> {
    if is_key(t, p) {
        t[choose|i: int| 0 <= i < t.len() && #[trigger] t[i].0 == p].1
    } else {
        p
    }
}

pub open spec fn is_pow2(p: nat) -> bool {
    exists|k: nat| pow2(k) == p
}

/// `p` is the smallest power of two above `n`.
pub open spec fn is_next_pow2(p: nat, n: nat) -> bool {
    is_pow2(p) && n < p && p / 2 <= n
}


/// The authored falling rules, before mirroring.
pub open spec fn authored_rules() -> Seq<RuleView> {
    seq![
        (seq![Sand, Empty, Empty, Empty], seq![Empty, Empty, Sand, Empty]),
        (seq![Sand, Sand, Sand, Empty], seq![Sand, Empty, Sand, Sand]),
        (seq![Sand, Sand, Empty, Empty], seq![Empty, Empty, Sand, Sand]),
        (seq![Sand, Empty, Empty, Sand], seq![Empty, Empty, Sand, Sand]),
        (seq![Sand, Empty, Sand, Empty], seq![Empty, Empty, Sand, Sand]),
        (seq![Sand, Wall, Empty, Empty], seq![Empty, Wall, Sand, Empty]),
        (seq![Sand, Wall, Empty, Wall], seq![Empty, Wall, Sand, Wall]),
        (seq![Sand, Empty, Empty, Wall], seq![Empty, Empty, Sand, Wall]),
        (seq![Sand, Empty, Wall, Empty], seq![Empty, Empty, Wall, Sand]),
    ]
}

/// The block of four sand cells.
pub open spec fn packed_sand() -> Seq<CellType> {
    seq![Sand, Sand, Sand, Sand]
}

/// The expanded authored table written as a function of the input block.
spec fn authored_map(p: Seq<CellType>) -> Seq<CellType> {
    if p == seq![Sand, Empty, Empty, Empty] {
        seq![Empty, Empty, Sand, Empty]
    } else if p == seq![Empty, Sand, Empty, Empty] {
        seq![Empty, Empty, Empty, Sand]
    } else if p == seq![Sand, Sand, Sand, Empty] {
        seq![Sand, Empty, Sand, Sand]
    } else if p == seq![Sand, Sand, Empty, Sand] {
        seq![Empty, Sand, Sand, Sand]
    } else if p == seq![Sand, Sand, Empty, Empty] {
        seq![Empty, Empty, Sand, Sand]
    } else if p == seq![Sand, Empty, Empty, Sand] {
        seq![Empty, Empty, Sand, Sand]
    } else if p == seq![Empty, Sand, Sand, Empty] {
        seq![Empty, Empty, Sand, Sand]
    } else if p == seq![Sand, Empty, Sand, Empty] {
        seq![Empty, Empty, Sand, Sand]
    } else if p == seq![Empty, Sand, Empty, Sand] {
        seq![Empty, Empty, Sand, Sand]
    } else if p == seq![Sand, Wall, Empty, Empty] {
        seq![Empty, Wall, Sand, Empty]
    } else if p == seq![Wall, Sand, Empty, Empty] {
        seq![Wall, Empty, Empty, Sand]
    } else if p == seq![Sand, Wall, Empty, Wall] {
        seq![Empty, Wall, Sand, Wall]
    } else if p == seq![Wall, Sand, Wall, Empty] {
        seq![Wall, Empty, Wall, Sand]
    } else if p == seq![Sand, Empty, Empty, Wall] {
        seq![Empty, Empty, Sand, Wall]
    } else if p == seq![Empty, Sand, Wall, Empty] {
        seq![Empty, Empty, Wall, Sand]
    } else if p == seq![Sand, Empty, Wall, Empty] {
        seq![Empty, Empty, Wall, Sand]
    } else if p == seq![Empty, Sand, Empty, Wall] {
        seq![Empty, Empty, Sand, Wall]
    } else {
        p
    }
}

proof fn lemma_authored_entry(i: int)
    requires
        0 <= i < 18,
    ensures
        expand(authored_rules())[i].1 == authored_map(expand(authored_rules())[i].0),
        expand(authored_rules())[i].0 != packed_sand(),
{
    let t = expand(authored_rules());
    let p = t[i].0;
    assert(p[0] != Sand || p[1] != Sand || p[2] != Sand || p[3] != Sand);
}

/// The expanded authored table maps each input to one output, and has no
/// entry for packed sand.
proof fn lemma_authored_table()
    ensures
        consistent(expand(authored_rules())),
        !is_key(expand(authored_rules()), packed_sand()),
{
    let t = expand(authored_rules());
    assert forall|i: int, j: int|
        0 <= i < t.len() && 0 <= j < t.len() && #[trigger] t[i].0 == #[trigger] t[j].0 implies t[i].1
            == t[j].1 by {
        lemma_authored_entry(i);
        lemma_authored_entry(j);
    }
    if is_key(t, packed_sand()) {
        let i = choose|i: int| 0 <= i < t.len() && #[trigger] t[i].0 == packed_sand();
        lemma_authored_entry(i);
    }
}

/// Two clashing entries of an expanded table: equal inputs, different
/// outputs.
#[derive(Clone, Copy, Debug, PartialEq, Eq, Structural)]
pub struct ConfigurationError {
    pub first: usize,
    pub second: usize,
}

/// A symmetric rule table, with the sizes of its texture encoding.
pub struct Rules {
    rules: Vec<Rule>,
    useful_size: u32,
    next_po2: u32,
}

fn mirror_pattern(p: &Pattern) -> (r: Pattern)
    ensures
        r@ == mirror(p@),
{
    let r = [p[1], p[0], p[3], p[2]];
    assert(r@ =~= mirror(p@));
    r
}

fn same_pattern(a: &Pattern, b: &Pattern) -> (r: bool)
    ensures
        r == (a@ == b@),
{
    let r = a[0] == b[0] && a[1] == b[1] && a[2] == b[2] && a[3] == b[3];
    if r {
        assert(a@ =~= b@);
    } else {
        assert(a@ != b@) by {
            if a@ == b@ {
                assert(a@[0] == b@[0] && a@[1] == b@[1] && a@[2] == b@[2] && a@[3] == b@[3]);
            }
        }
    }
    r
}


/// The smallest power of two above `n`.
fn next_pow2_above(n: u32) -> (p: u32)
    requires
        n <= 0x4000_0000,
    ensures
        is_next_pow2(p as nat, n as nat),
{
    let mut p: u32 = 1;
    let ghost mut k: nat = 0;
    proof {
        assert(pow2(0) == 1) by { vstd::arithmetic::power2::lemma2_to64(); }
    }
    while p <= n
        invariant
            pow2(k) == p,
            p >= 1,
            p / 2 <= n,
            p <= 2 * (n as nat) + 1,
            n <= 0x4000_0000,
        decreases 2 * (n as nat) + 1 - p,
    {
        proof {
            lemma_pow2_unfold(k + 1);
        }
        p = p * 2;
        proof {
            k = k + 1;
        }
    }
    p
}

fn authored_base() -> (r: Vec<Rule>)
    ensures
        rules_view(r@) == authored_rules(),
{
    let r = vec![
        ([Sand, Empty, Empty, Empty], [Empty, Empty, Sand, Empty]),
        ([Sand, Sand, Sand, Empty], [Sand, Empty, Sand, Sand]),
        ([Sand, Sand, Empty, Empty], [Empty, Empty, Sand, Sand]),
        ([Sand, Empty, Empty, Sand], [Empty, Empty, Sand, Sand]),
        ([Sand, Empty, Sand, Empty], [Empty, Empty, Sand, Sand]),
        ([Sand, Wall, Empty, Empty], [Empty, Wall, Sand, Empty]),
        ([Sand, Wall, Empty, Wall], [Empty, Wall, Sand, Wall]),
        ([Sand, Empty, Empty, Wall], [Empty, Empty, Sand, Wall]),
        ([Sand, Empty, Wall, Empty], [Empty, Empty, Wall, Sand]),
    ];
    assert(rules_view(r@) =~= authored_rules());
    r
}

/// Every authored rule and its column-mirrored twin stand in the expanded
/// table.
pub proof fn lemma_symmetry_closure(base: Seq<RuleView>, i: int)
    requires
        0 <= i < base.len(),
    ensures
        expand(base).contains(base[i]),
        expand(base).contains(mirror_rule(base[i])),
{
    let t = expand(base);
    assert(t[2 * i] == base[i]);
    assert(t[2 * i + 1] == mirror_rule(base[i]));
}

/// A block whose input is neither an authored input nor the mirror of one
/// is left unchanged.
pub proof fn lemma_identity_fallback(base: Seq<RuleView>, p: Seq<CellType>)
    requires
        forall|i: int| 0 <= i < base.len() ==> #[trigger] base[i].0 != p && mirror(base[i].0) != p,
    ensures
        lookup(expand(base), p) == p,
{
    let t = expand(base);
    if is_key(t, p) {
        let k = choose|k: int| 0 <= k < t.len() && #[trigger] t[k].0 == p;
        assert(base[k / 2].0 != p);
    }
}

/// Looking up a mirrored block gives the mirror of what the block itself
/// maps to, in any consistent expanded table of four-cell rules.
pub proof fn lemma_lookup_mirror(base: Seq<RuleView>, p: Seq<CellType>)
    requires
        consistent(expand(base)),
        p.len() == 4,
        forall|i: int| 0 <= i < base.len() ==> (#[trigger] base[i]).0.len() == 4 && base[i].1.len() == 4,
    ensures
        lookup(expand(base), mirror(p)) == mirror(lookup(expand(base), p)),
{
    let t = expand(base);
    assert(mirror(mirror(p)) =~= p);
    if is_key(t, p) {
        let k = choose|k: int| 0 <= k < t.len() && #[trigger] t[k].0 == p;
        let m = if k % 2 == 0 { k + 1 } else { k - 1 };
        let b = base[k / 2];
        assert(mirror(mirror(b.0)) =~= b.0);
        assert(mirror(mirror(b.1)) =~= b.1);
        assert(t[m].0 == mirror(p));
        assert(t[m].1 == mirror(t[k].1));
        assert(is_key(t, mirror(p)));
    } else if is_key(t, mirror(p)) {
        let k = choose|k: int| 0 <= k < t.len() && #[trigger] t[k].0 == mirror(p);
        let m = if k % 2 == 0 { k + 1 } else { k - 1 };
        let b = base[k / 2];
        assert(mirror(mirror(b.0)) =~= b.0);
        assert(t[m].0 == p);
    }
}

/// One row of a rule texture: two cells of each pattern, from column
/// `first`.
pub open spec fn texture_row(arr: Seq<Pattern>, first: int) -> Seq<Option<CellType>> {
    Seq::new(2 * arr.len(), |k: int| Some(arr[k / 2]@[first + k % 2]))
}

pub open spec fn texture_padding(n: nat) -> Seq<Option<CellType>> {
    Seq::new(n, |k: int| None)
}

/// A two-row texture of `arr`: the top halves of the patterns, padding, the
/// bottom halves, padding.
pub open spec fn texture_layout(arr: Seq<Pattern>, pad: nat) -> Seq<Option<CellType>> {
    texture_row(arr, 0) + texture_padding(pad) + texture_row(arr, 2) + texture_padding(pad)
}

fn push_row(out: &mut Vec<Option<CellType>>, arr: &Vec<Pattern>, first: usize)
    requires
        first == 0 || first == 2,
        old(out)@.len() + 2 * arr@.len() <= usize::MAX,
    ensures
        final(out)@ == old(out)@ + texture_row(arr@, first as int),
{
    let ghost start = out@;
    let mut i: usize = 0;
    while i < arr.len()
        invariant
            first == 0 || first == 2,
            i <= arr@.len(),
            start.len() + 2 * arr@.len() <= usize::MAX,
            out@ =~= start + texture_row(arr@.subrange(0, i as int), first as int),
        decreases arr@.len() - i,
    {
        out.push(Some(arr[i][first]));
        out.push(Some(arr[i][first + 1]));
        proof {
            let a1 = arr@.subrange(0, i as int + 1);
            let a0 = arr@.subrange(0, i as int);
            assert forall|k: int| 0 <= k < 2 * i implies texture_row(a1, first as int)[k] == texture_row(a0, first as int)[k] by {
                assert(k / 2 < i) by (nonlinear_arith) requires 0 <= k < 2 * i;
            }
            assert(texture_row(a1, first as int)[2 * i] == Some(arr@[i as int]@[first as int]));
            assert(texture_row(a1, first as int)[2 * i + 1] == Some(arr@[i as int]@[first + 1]));
            assert(out@ =~= start + texture_row(a1, first as int));
        }
        i += 1;
    }
    assert(arr@.subrange(0, arr@.len() as int) =~= arr@);
}

fn push_padding(out: &mut Vec<Option<CellType>>, n: usize)
    requires
        old(out)@.len() + n <= usize::MAX,
    ensures
        final(out)@ == old(out)@ + texture_padding(n as nat),
{
    let ghost start = out@;
    let mut i: usize = 0;
    while i < n
        invariant
            i <= n,
            start.len() + n <= usize::MAX,
            out@ =~= start + texture_padding(i as nat),
        decreases n - i,
    {
        out.push(None);
        i += 1;
        assert(out@ =~= start + texture_padding(i as nat));
    }
}

/// Lays out `arr` as a two-row texture `next_po2` cells wide: the top
/// halves of the patterns then padding, and the bottom halves then padding.
/// `None` marks a padding cell.
pub fn texture_cells(arr: &Vec<Pattern>, useful_size: u32, next_po2: u32) -> (r: Vec<Option<CellType>>)
    requires
        useful_size <= next_po2,
        4 * arr@.len() + 2 * next_po2 <= usize::MAX,
    ensures
        r@ == texture_layout(arr@, (next_po2 - useful_size) as nat),
{
    let pad = (next_po2 - useful_size) as usize;
    let mut out: Vec<Option<CellType>> = Vec::new();
    push_row(&mut out, arr, 0);
    push_padding(&mut out, pad);
    push_row(&mut out, arr, 2);
    push_padding(&mut out, pad);
    out
}

impl Rules {
    pub closed spec fn table(&self) -> Seq<RuleView> {
        rules_view(self.rules@)
    }

    pub closed spec fn wf(&self) -> bool {
        &&& consistent(self.table())
        &&& self.useful_size as nat == 2 * self.rules@.len()
        &&& is_next_pow2(self.next_po2 as nat, self.useful_size as nat)
    }

    /// Each rule of `pat` followed by its column-mirrored twin.
    pub fn with_symmetry(pat: Vec<Rule>) -> (r: Vec<Rule>)
        requires
            pat@.len() <= MAX_BASE_RULES,
        ensures
            rules_view(r@) == expand(rules_view(pat@)),
    {
        let mut r: Vec<Rule> = Vec::new();
        let mut i: usize = 0;
        while i < pat.len()
            invariant
                i <= pat@.len() <= MAX_BASE_RULES,
                rules_view(r@) =~= expand(rules_view(pat@.subrange(0, i as int))),
            decreases pat@.len() - i,
        {
            let (p, q) = pat[i];
            let ghost r0 = r@;
            let mp = mirror_pattern(&p);
            let mq = mirror_pattern(&q);
            r.push((p, q));
            r.push((mp, mq));
            proof {
                assert(r@.len() == r0.len() + 2);
                assert(r@[r0.len() as int] == (p, q));
                assert(r@[r0.len() as int + 1] == (mp, mq));
                assert(forall|k: int| 0 <= k < r0.len() ==> r@[k] == r0[k]);
                let b0 = rules_view(pat@.subrange(0, i as int));
                let b1 = rules_view(pat@.subrange(0, i as int + 1));
                assert forall|k: int| 0 <= k < b0.len() implies b1[k] == b0[k] by {}
                assert(b1[i as int] == (p@, q@));
                let e = expand(b1);
                assert(b0.len() == i);
                assert(b1.len() == i + 1);
                assert(rules_view(r0).len() == r0.len());
                assert(r0.len() == 2 * i);
                assert(rules_view(r@).len() == e.len());
                assert forall|k: int| 0 <= k < e.len() implies #[trigger] rules_view(r@)[k] == e[k] by {
                    if k < 2 * i {
                        assert(expand(b0)[k] == e[k]);
                        assert(rules_view(r0)[k] == rules_view(r@)[k]);
                    }
                }
                assert(rules_view(r@) =~= expand(b1));
            }
            i += 1;
        }
        assert(pat@.subrange(0, pat@.len() as int) =~= pat@);
        r
    }

    /// Builds a table from authored rules and their mirrored twins; fails
    /// when two entries of the result map one input to different outputs.
    pub fn build(base: Vec<Rule>) -> (r: Result<Rules, ConfigurationError>)
        requires
            base@.len() <= MAX_BASE_RULES,
        ensures
            r is Ok <==> consistent(expand(rules_view(base@))),
            r matches Ok(t) ==> t.wf() && t.table() == expand(rules_view(base@)),
            r matches Err(e) ==> {
                let t = expand(rules_view(base@));
                &&& e.first < e.second < t.len()
                &&& t[e.first as int].0 == t[e.second as int].0
                &&& t[e.first as int].1 != t[e.second as int].1
            },
    {
        let rules = Self::with_symmetry(base);
        let ghost t = rules_view(rules@);
        let n = rules.len();
        let mut i: usize = 0;
        while i < n
            invariant
                n == rules@.len() == t.len() <= 2 * MAX_BASE_RULES,
                t == rules_view(rules@),
                t == expand(rules_view(base@)),
                i <= n,
                forall|a: int, b: int|
                    0 <= a < i && a < b < n && #[trigger] t[a].0 == #[trigger] t[b].0 ==> t[a].1
                        == t[b].1,
            decreases n - i,
        {
            let mut j: usize = i + 1;
            while j < n
                invariant
                    n == rules@.len() == t.len() <= 2 * MAX_BASE_RULES,
                    t == rules_view(rules@),
                    t == expand(rules_view(base@)),
                    i < n,
                    i < j <= n,
                    forall|a: int, b: int|
                        0 <= a < i && a < b < n && #[trigger] t[a].0 == #[trigger] t[b].0 ==> t[a].1
                            == t[b].1,
                    forall|b: int|
                        i < b < j && #[trigger] t[b].0 == t[i as int].0 ==> t[i as int].1 == t[b].1,
                decreases n - j,
            {
                if same_pattern(&rules[i].0, &rules[j].0) && !same_pattern(&rules[i].1, &rules[j].1) {
                    proof {
                        assert(t[i as int].0 == t[j as int].0);
                    }
                    return Err(ConfigurationError { first: i, second: j });
                }
                j += 1;
            }
            i += 1;
        }
        assert(consistent(t)) by {
            assert forall|a: int, b: int|
                0 <= a < t.len() && 0 <= b < t.len() && #[trigger] t[a].0 == #[trigger] t[b].0 implies t[a].1
                    == t[b].1 by {
                if a > b {
                    assert(t[b].1 == t[a].1);
                }
            }
        }
        let useful_size = (n * 2) as u32;
        let next_po2 = next_pow2_above(useful_size);
        Ok(Rules { rules, useful_size, next_po2 })
    }

    /// The table of the authored falling rules and their mirrored twins.
    pub fn new() -> (r: Rules)
        ensures
            r.wf(),
            r.table() == expand(authored_rules()),
            lookup(r.table(), packed_sand()) == packed_sand(),
    {
        proof {
            lemma_authored_table();
        }
        match Self::build(authored_base()) {
            Ok(t) => t,
            Err(_) => {
                proof {
                    assert(false);
                }
                Rules { rules: Vec::new(), useful_size: 0, next_po2: 1 }
            },
        }
    }

    /// The replacement for `slice`, or `slice` itself where no rule has it as
    /// input.
    pub fn rules(&self, slice: Pattern) -> (r: Pattern)
        requires
            self.wf(),
        ensures
            r@ == lookup(self.table(), slice@),
    {
        let ghost t = self.table();
        let mut i: usize = 0;
        while i < self.rules.len()
            invariant
                self.wf(),
                t == self.table(),
                i <= t.len(),
                forall|k: int| 0 <= k < i ==> #[trigger] t[k].0 != slice@,
            decreases t.len() - i,
        {
            if same_pattern(&self.rules[i].0, &slice) {
                proof {
                    assert(t[i as int].0 == slice@);
                    assert(is_key(t, slice@));
                    let c = choose|k: int| 0 <= k < t.len() && #[trigger] t[k].0 == slice@;
                    assert(t[c].0 == t[i as int].0);
                }
                return self.rules[i].1;
            }
            i += 1;
        }
        slice
    }

    /// The number of entries, mirrored twins included.
    pub fn num_rules(&self) -> (r: usize)
        ensures
            r == self.table().len(),
    {
        self.rules.len()
    }

    /// The number of texture cells that one row of rule halves fills.
    pub fn useful_size(&self) -> (r: u32)
        requires
            self.wf(),
        ensures
            r == 2 * self.table().len(),
    {
        self.useful_size
    }

    /// The width of a rule texture: the smallest power of two above
    /// [`Rules::useful_size`].
    pub fn texture_len(&self) -> (r: u32)
        requires
            self.wf(),
        ensures
            is_next_pow2(r as nat, 2 * self.table().len()),
    {
        self.next_po2
    }

    /// The input patterns, in table order.
    pub fn patterns(&self) -> (r: Vec<Pattern>)
        ensures
            r@.len() == self.table().len(),
            forall|i: int| 0 <= i < r@.len() ==> (#[trigger] r@[i])@ == self.table()[i].0,
    {
        let mut r: Vec<Pattern> = Vec::new();
        let mut i: usize = 0;
        while i < self.rules.len()
            invariant
                i <= self.rules@.len(),
                r@.len() == i,
                forall|k: int| 0 <= k < i ==> (#[trigger] r@[k])@ == self.table()[k].0,
            decreases self.rules@.len() - i,
        {
            r.push(self.rules[i].0);
            i += 1;
        }
        r
    }

    /// The replacement patterns, in table order.
    pub fn replacements(&self) -> (r: Vec<Pattern>)
        ensures
            r@.len() == self.table().len(),
            forall|i: int| 0 <= i < r@.len() ==> (#[trigger] r@[i])@ == self.table()[i].1,
    {
        let mut r: Vec<Pattern> = Vec::new();
        let mut i: usize = 0;
        while i < self.rules.len()
            invariant
                i <= self.rules@.len(),
                r@.len() == i,
                forall|k: int| 0 <= k < i ==> (#[trigger] r@[k])@ == self.table()[k].1,
            decreases self.rules@.len() - i,
        {
            r.push(self.rules[i].1);
            i += 1;
        }
        r
    }
}

} // verus!
