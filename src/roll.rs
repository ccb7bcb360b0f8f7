//! The roll engine: one group of dice, with its keep/drop and target policies.

use crate::random::{draw_between, fresh_rng, pick_from, sort_ascending};
use vstd::prelude::*;
use vstd::relations::{sorted_by, total_ordering};

verus! {

broadcast use vstd::seq_lib::group_to_multiset_ensures;

/// The most dice that one roll term throws.
pub const MAX_ROLLS: u64 = 1000;

/// The most sides that a numeric die has.
pub const MAX_SIDES: u64 = 4294967295;

/// The most faces of a custom die that take part in a roll.
pub const MAX_CUSTOM_SIDES: usize = 1000;

#[derive(Clone, Copy, Debug, PartialEq, Eq, Structural)]
pub enum DieType {
    Custom,
    Normal,
}

#[derive(Clone, Copy, Debug, PartialEq, Eq, Structural)]
pub enum Take {
    KeepHighest(u64),
    DropLowest(u64),
}

#[derive(Clone, Copy, Debug, PartialEq, Eq, Structural)]
pub enum TargetRoll {
    GT(u64),
    GTE(u64),
    LT(u64),
    LTE(u64),
}

/// A roll term: how many dice, which die, and what is done with the faces.
#[derive(Debug)]
pub struct Roll {
    count: u64,
    custom_sides: Vec<i64>,
    die_type: DieType,
    sides: u64,
    take: Option<Take>,
    target_roll: Option<TargetRoll>,
}

/// The abstract configuration of a `Roll`.
pub struct RollView {
    pub count: nat,
    pub custom_sides: Seq<i64>,
    pub die_type: DieType,
    pub sides: nat,
    pub take: Option<Take>,
    pub target_roll: Option<TargetRoll>,
}

pub open spec fn clamp(x: nat, limit: nat) -> nat {
    if x > limit {
        limit
    } else {
        x
    }
}

/// The order in which faces are sorted before keep/drop applies.
pub open spec fn ascending() -> spec_fn(u64, u64) -> bool {
    |a: u64, b: u64| a <= b
}

pub open spec fn sum_faces(s: Seq<u64>) -> int
    decreases s.len(),
{
    if s.len() == 0 {
        0
    } else {
        sum_faces(s.drop_last()) + s.last()
    }
}

pub open spec fn sum_picks(s: Seq<i64>) -> int
    decreases s.len(),
{
    if s.len() == 0 {
        0
    } else {
        sum_picks(s.drop_last()) + s.last()
    }
}

/// Whether one face counts as a success against the target.
pub open spec fn meets(face: u64, target: TargetRoll) -> bool {
    match target {
        TargetRoll::GT(t) => face > t,
        TargetRoll::GTE(t) => face >= t,
        TargetRoll::LT(t) => face < t,
        TargetRoll::LTE(t) => face <= t,
    }
}

/// How many faces count as successes against the target.
pub open spec fn successes(s: Seq<u64>, target: TargetRoll) -> int
    decreases s.len(),
{
    if s.len() == 0 {
        0
    } else {
        successes(s.drop_last(), target) + if meets(s.last(), target) {
            1int
        } else {
            0int
        }
    }
}

/// The first `MAX_CUSTOM_SIDES` faces of a list, or all of a shorter one.
pub open spec fn first_faces(faces: Seq<i64>) -> Seq<i64> {
    if faces.len() > MAX_CUSTOM_SIDES {
        faces.subrange(0, MAX_CUSTOM_SIDES as int)
    } else {
        faces
    }
}

impl RollView {
    pub open spec fn wf(self) -> bool {
        self.count <= MAX_ROLLS && self.sides <= MAX_SIDES
    }

    /// The faces of a custom die that take part: the first thousand at most.
    pub open spec fn pool(self) -> Seq<i64> {
        first_faces(self.custom_sides)
    }

    /// A face that a numeric die of this roll can show.
    pub open spec fn can_show(self, face: u64) -> bool {
        if self.sides == 0 {
            face == 0
        } else {
            1 <= face <= self.sides
        }
    }

    /// A sequence of faces that throwing the numeric dice of this roll can give.
    pub open spec fn can_throw(self, faces: Seq<u64>) -> bool {
        &&& faces.len() == self.count
        &&& forall|i: int| 0 <= i < faces.len() ==> self.can_show(#[trigger] faces[i])
    }

    /// What the take policy leaves of faces sorted in ascending order.
    pub open spec fn kept(self, sorted: Seq<u64>) -> Seq<u64> {
        match self.take {
            None => sorted,
            Some(Take::KeepHighest(n)) => sorted.subrange(
                sorted.len() - clamp(n as nat, sorted.len()),
                sorted.len() as int,
            ),
            Some(Take::DropLowest(n)) => sorted.subrange(
                clamp(n as nat, sorted.len()) as int,
                sorted.len() as int,
            ),
        }
    }

    /// The successes among the kept faces under a target, else their sum.
    pub open spec fn score(self, kept: Seq<u64>) -> int {
        match self.target_roll {
            Some(t) => successes(kept, t),
            None => sum_faces(kept),
        }
    }

    /// The value of a numeric roll whose dice showed `faces`.
    pub open spec fn numeric_total(self, faces: Seq<u64>) -> int {
        self.score(self.kept(faces.sort_by(ascending())))
    }

    /// Whether `count` times any face of the pool fits in an `i64`.
    pub open spec fn custom_fits(self) -> bool {
        self.die_type == DieType::Normal || forall|i: int|
            0 <= i < self.pool().len() ==> i64::MIN <= self.count * #[trigger] self.pool()[i]
                <= i64::MAX
    }

    /// A sequence of faces that throwing the custom dice of this roll can give.
    pub open spec fn can_pick(self, picks: Seq<i64>) -> bool {
        &&& picks.len() == self.count
        &&& forall|i: int| 0 <= i < picks.len() ==> self.pool().contains(#[trigger] picks[i])
    }

    /// `v` is a value that rolling this configuration can give.
    pub open spec fn yields(self, v: int) -> bool {
        match self.die_type {
            DieType::Normal => exists|faces: Seq<u64>|
                self.can_throw(faces) && v == #[trigger] self.numeric_total(faces),
            DieType::Custom => if self.pool().len() == 0 {
                v == 0
            } else {
                exists|picks: Seq<i64>| self.can_pick(picks) && v == #[trigger] sum_picks(picks)
            },
        }
    }
}

impl View for Roll {
    type V = RollView;

    closed spec fn view(&self) -> RollView {
        RollView {
            count: self.count as nat,
            custom_sides: self.custom_sides@,
            die_type: self.die_type,
            sides: self.sides as nat,
            take: self.take,
            target_roll: self.target_roll,
        }
    }
}

pub proof fn lemma_ascending_total()
    ensures
        total_ordering(ascending()),
{
}

/// Reordering the faces keeps them within the same bounds.
pub proof fn lemma_sorted_within(faces: Seq<u64>, sorted: Seq<u64>, lo: int, hi: int)
    requires
        forall|i: int| 0 <= i < faces.len() ==> lo <= #[trigger] faces[i] <= hi,
        sorted.to_multiset() == faces.to_multiset(),
    ensures
        forall|i: int| 0 <= i < sorted.len() ==> lo <= #[trigger] sorted[i] <= hi,
        sorted.len() == faces.len(),
{
    assert(sorted.len() == sorted.to_multiset().len());
    assert(faces.len() == faces.to_multiset().len());
    assert forall|i: int| 0 <= i < sorted.len() implies lo <= #[trigger] sorted[i] <= hi by {
        assert(sorted.contains(sorted[i]));
        assert(sorted.to_multiset().count(sorted[i]) > 0);
        assert(faces.contains(sorted[i]));
    }
}

impl Roll {
    pub open spec fn wf(&self) -> bool {
        self@.wf()
    }

    pub fn new() -> (r: Self)
        ensures
            r.wf(),
            r@ == (RollView {
                count: 0,
                custom_sides: Seq::empty(),
                die_type: DieType::Normal,
                sides: 0,
                take: None,
                target_roll: None,
            }),
    {
        Self {
            count: 0,
            custom_sides: Vec::new(),
            die_type: DieType::Normal,
            sides: 0,
            take: None,
            target_roll: None,
        }
    }

    /// Sets the faces of the custom die, replacing any set before; only the
    /// first `MAX_CUSTOM_SIDES` are kept.
    pub fn add_custom_sides<'a>(&'a mut self, custom_sides: &[i64]) -> (r: &'a mut Self)
        ensures
            r@ == (RollView { custom_sides: first_faces(custom_sides@), ..old(self)@ }),
            r.wf() == old(self).wf(),
            *final(self) == *final(r),
    {
        let n: usize = if custom_sides.len() > MAX_CUSTOM_SIDES {
            MAX_CUSTOM_SIDES
        } else {
            custom_sides.len()
        };
        self.custom_sides = Vec::new();
        assert(self.custom_sides@ =~= custom_sides@.subrange(0, 0));
        let mut i: usize = 0;
        while i < n
            invariant
                0 <= i <= n <= custom_sides@.len(),
                n as int == first_faces(custom_sides@).len(),
                self@ == (RollView {
                    custom_sides: custom_sides@.subrange(0, i as int),
                    ..old(self)@
                }),
            decreases n - i,
        {
            self.custom_sides.push(custom_sides[i]);
            i = i + 1;
            assert(custom_sides@.subrange(0, i as int) =~= custom_sides@.subrange(0, i - 1).push(
                custom_sides@[i - 1],
            ));
        }
        assert(custom_sides@.subrange(0, i as int) =~= first_faces(custom_sides@));
        self
    }

    /// Sets the number of dice, at most `MAX_ROLLS`.
    pub fn count<'a>(&'a mut self, count: u64) -> (r: &'a mut Self)
        requires
            old(self).wf(),
        ensures
            r@ == (RollView { count: clamp(count as nat, MAX_ROLLS as nat), ..old(self)@ }),
            r.wf(),
            *final(self) == *final(r),
    {
        let count = if count > MAX_ROLLS {
            MAX_ROLLS
        } else {
            count
        };
        self.count = count;
        self
    }

    pub fn die_type<'a>(&'a mut self, die_type: DieType) -> (r: &'a mut Self)
        ensures
            r@ == (RollView { die_type, ..old(self)@ }),
            r.wf() == old(self).wf(),
            *final(self) == *final(r),
    {
        self.die_type = die_type;
        self
    }

    pub fn drop_lowest<'a>(&'a mut self, drop_lowest: u64) -> (r: &'a mut Self)
        ensures
            r@ == (RollView { take: Some(Take::DropLowest(drop_lowest)), ..old(self)@ }),
            r.wf() == old(self).wf(),
            *final(self) == *final(r),
    {
        self.take = Some(Take::DropLowest(drop_lowest));
        self
    }

    pub fn keep_highest<'a>(&'a mut self, keep_highest: u64) -> (r: &'a mut Self)
        ensures
            r@ == (RollView { take: Some(Take::KeepHighest(keep_highest)), ..old(self)@ }),
            r.wf() == old(self).wf(),
            *final(self) == *final(r),
    {
        self.take = Some(Take::KeepHighest(keep_highest));
        self
    }

    /// Sets the sides of a numeric die, at most `MAX_SIDES`.
    pub fn sides<'a>(&'a mut self, sides: u64) -> (r: &'a mut Self)
        requires
            old(self).wf(),
        ensures
            r@ == (RollView { sides: clamp(sides as nat, MAX_SIDES as nat), ..old(self)@ }),
            r.wf(),
            *final(self) == *final(r),
    {
        let sides = if sides > MAX_SIDES {
            MAX_SIDES
        } else {
            sides
        };
        self.sides = sides;
        self
    }

    pub fn target_roll<'a>(&'a mut self, target_roll: TargetRoll) -> (r: &'a mut Self)
        ensures
            r@ == (RollView { target_roll: Some(target_roll), ..old(self)@ }),
            r.wf() == old(self).wf(),
            *final(self) == *final(r),
    {
        self.target_roll = Some(target_roll);
        self
    }
}

impl TargetRoll {
    /// Whether one face counts as a success against this target.
    pub fn is_met_by(&self, face: u64) -> (r: bool)
        ensures
            r == meets(face, *self),
    {
        match *self {
            TargetRoll::GT(t) => face > t,
            TargetRoll::GTE(t) => face >= t,
            TargetRoll::LT(t) => face < t,
            TargetRoll::LTE(t) => face <= t,
        }
    }
}

impl Roll {
    /// The value of this numeric roll when its dice showed `faces`: the faces
    /// are sorted in ascending order, the take policy keeps a slice of them,
    /// and the kept faces are summed, or under a target their successes are
    /// counted.
    pub fn tally(&self, faces: Vec<u64>) -> (r: u64)
        requires
            self.wf(),
            faces@.len() == self@.count,
            forall|i: int| 0 <= i < faces@.len() ==> #[trigger] faces@[i] <= self@.sides,
        ensures
            r == self@.numeric_total(faces@),
            r <= MAX_ROLLS * MAX_SIDES,
    {
        let ghost thrown = faces@;
        let mut v = faces;
        sort_ascending(&mut v);
        proof {
            lemma_ascending_total();
            thrown.lemma_sort_by_ensures(ascending());
            assert(sorted_by(v@, ascending()));
            vstd::seq_lib::lemma_sorted_unique(v@, thrown.sort_by(ascending()), ascending());
            lemma_sorted_within(thrown, v@, 0, self@.sides as int);
            assert(v@.to_multiset().len() == thrown.to_multiset().len());
        }
        let len = v.len();
        let lo: usize;
        match self.take {
            None => {
                lo = 0;
            },
            Some(Take::KeepHighest(n)) => {
                let k: usize = if n > len as u64 {
                    len
                } else {
                    n as usize
                };
                lo = len - k;
            },
            Some(Take::DropLowest(n)) => {
                lo = if n > len as u64 {
                    len
                } else {
                    n as usize
                };
            },
        }
        assert(self@.kept(v@) =~= v@.subrange(lo as int, len as int));
        let mut acc: u64 = 0;
        let mut i: usize = lo;
        while i < len
            invariant
                lo <= i <= len,
                len == v@.len(),
                len <= MAX_ROLLS,
                self@.wf(),
                forall|j: int| 0 <= j < v@.len() ==> #[trigger] v@[j] <= self@.sides,
                acc == self@.score(v@.subrange(lo as int, i as int)),
                acc <= (i - lo) * MAX_SIDES,
            decreases len - i,
        {
            let f = v[i];
            assert(v@.subrange(lo as int, i + 1).drop_last() =~= v@.subrange(lo as int, i as int));
            match self.target_roll {
                Some(t) => {
                    if t.is_met_by(f) {
                        acc = acc + 1;
                    }
                },
                None => {
                    acc = acc + f;
                },
            }
            i = i + 1;
        }
        acc
    }

    /// Rolls the dice: each numeric die shows a face in `1..=sides` (a
    /// zero-sided die shows 0), each custom die one face of the pool; the
    /// result is what `tally` makes of the numeric faces, or the sum of the
    /// custom faces, and 0 for an empty pool.
    pub fn roll_dice(&self) -> (r: i64)
        requires
            self.wf(),
            self@.custom_fits(),
        ensures
            self@.yields(r as int),
            self@.die_type == DieType::Normal ==> 0 <= r <= MAX_ROLLS * MAX_SIDES,
    {
        match self.die_type {
            DieType::Custom => self.roll_custom_dice(),
            DieType::Normal => self.roll_normal_dice() as i64,
        }
    }

    fn roll_normal_dice(&self) -> (r: u64)
        requires
            self.wf(),
            self@.die_type == DieType::Normal,
        ensures
            self@.yields(r as int),
            r <= MAX_ROLLS * MAX_SIDES,
    {
        let mut faces: Vec<u64> = Vec::new();
        if self.sides > 0 {
            let mut rng = fresh_rng();
            while faces.len() < self.count as usize
                invariant
                    self@.wf(),
                    self@.sides > 0,
                    faces@.len() <= self@.count,
                    forall|j: int| 0 <= j < faces@.len() ==> self@.can_show(#[trigger] faces@[j]),
                decreases self@.count - faces@.len(),
            {
                let f = draw_between(&mut rng, 1, self.sides);
                faces.push(f);
            }
        } else {
            while faces.len() < self.count as usize
                invariant
                    self@.wf(),
                    self@.sides == 0,
                    faces@.len() <= self@.count,
                    forall|j: int| 0 <= j < faces@.len() ==> self@.can_show(#[trigger] faces@[j]),
                decreases self@.count - faces@.len(),
            {
                faces.push(0);
            }
        }
        let ghost thrown = faces@;
        assert(self@.can_throw(thrown));
        assert forall|j: int| 0 <= j < thrown.len() implies #[trigger] thrown[j] <= self@.sides by {
            assert(self@.can_show(thrown[j]));
        }
        let r = self.tally(faces);
        assert(self@.can_throw(thrown) && r == self@.numeric_total(thrown));
        r
    }

    fn roll_custom_dice(&self) -> (r: i64)
        requires
            self.wf(),
            self@.die_type == DieType::Custom,
            self@.custom_fits(),
        ensures
            self@.yields(r as int),
    {
        if self.custom_sides.len() == 0 {
            return 0;
        }
        let n: usize = if self.custom_sides.len() > MAX_CUSTOM_SIDES {
            MAX_CUSTOM_SIDES
        } else {
            self.custom_sides.len()
        };
        let mut pool: Vec<i64> = Vec::new();
        let mut i: usize = 0;
        while i < n
            invariant
                i <= n <= self.custom_sides@.len(),
                pool@ =~= self.custom_sides@.subrange(0, i as int),
            decreases n - i,
        {
            pool.push(self.custom_sides[i]);
            i = i + 1;
        }
        assert(pool@ =~= self@.pool());
        let count = self.count;
        let mut rng = fresh_rng();
        let mut picks: Vec<i64> = Vec::new();
        while (picks.len() as u64) < count
            invariant
                pool@ == self@.pool(),
                pool@.len() > 0,
                count == self@.count,
                count <= MAX_ROLLS,
                picks@.len() <= count,
                forall|j: int| 0 <= j < picks@.len() ==> pool@.contains(#[trigger] picks@[j]),
            decreases count - picks@.len(),
        {
            match pick_from(&mut rng, pool.as_slice()) {
                Some(f) => {
                    picks.push(f);
                },
                None => {
                    return 0;
                },
            }
        }
        self.custom_total(&picks)
    }

    /// The value of this custom roll when its dice showed `picks`: their sum.
    pub fn custom_total(&self, picks: &Vec<i64>) -> (r: i64)
        requires
            self.wf(),
            self@.die_type == DieType::Custom,
            self@.custom_fits(),
            self@.can_pick(picks@),
        ensures
            r == sum_picks(picks@),
            self@.pool().len() > 0 ==> self@.yields(r as int),
    {
        let count = self.count;
        let mut acc: i64 = 0;
        let mut k: usize = 0;
        while k < picks.len()
            invariant
                self@.custom_fits(),
                self@.die_type == DieType::Custom,
                self@.can_pick(picks@),
                count == self@.count,
                k <= picks@.len(),
                acc == sum_picks(picks@.subrange(0, k as int)),
                i64::MIN * k <= acc * count <= i64::MAX * k,
            decreases picks@.len() - k,
        {
            let f = picks[k];
            proof {
                assert(self@.pool().contains(picks@[k as int]));
                let j = choose|j: int| 0 <= j < self@.pool().len() && self@.pool()[j] == f;
                assert(self@.pool()[j] == f);
                let c = count as int;
                let a = acc as int;
                let fi = f as int;
                let ki = k as int;
                assert(i64::MIN <= a + fi <= i64::MAX) by (nonlinear_arith)
                    requires
                        i64::MIN * ki <= a * c <= i64::MAX * ki,
                        i64::MIN <= c * fi <= i64::MAX,
                        0 <= ki < c,
                ;
                assert(i64::MIN * (ki + 1) <= (a + fi) * c <= i64::MAX * (ki + 1))
                    by (nonlinear_arith)
                    requires
                        i64::MIN * ki <= a * c <= i64::MAX * ki,
                        i64::MIN <= c * fi <= i64::MAX,
                ;
                assert(picks@.subrange(0, k + 1).drop_last() =~= picks@.subrange(0, k as int));
            }
            acc = acc + f;
            k = k + 1;
        }
        assert(picks@.subrange(0, k as int) =~= picks@);
        acc
    }

    /// Whether the sum of `count` faces of the custom pool is sure to fit in
    /// an `i64`; always true of a numeric die.
    pub fn sums_fit(&self) -> (r: bool)
        requires
            self.wf(),
        ensures
            r == self@.custom_fits(),
    {
        if self.die_type == DieType::Normal {
            return true;
        }
        let n: usize = if self.custom_sides.len() > MAX_CUSTOM_SIDES {
            MAX_CUSTOM_SIDES
        } else {
            self.custom_sides.len()
        };
        let c = self.count as i128;
        let mut i: usize = 0;
        while i < n
            invariant
                i <= n,
                n == self@.pool().len(),
                c == self@.count,
                self@.wf(),
                self@.die_type == DieType::Custom,
                forall|j: int|
                    0 <= j < i ==> i64::MIN <= self@.count * #[trigger] self@.pool()[j]
                        <= i64::MAX,
            decreases n - i,
        {
            let f = self.custom_sides[i] as i128;
            assert(f == self@.pool()[i as int]);
            assert(-1000 * 9223372036854775808 <= c * f <= 1000 * 9223372036854775808)
                by (nonlinear_arith)
                requires
                    0 <= c <= 1000,
                    -9223372036854775808 <= f <= 9223372036854775807,
            ;
            let p = c * f;
            if p < i64::MIN as i128 || p > i64::MAX as i128 {
                assert(!(i64::MIN <= self@.count * self@.pool()[i as int] <= i64::MAX));
                return false;
            }
            i = i + 1;
        }
        true
    }
}

} // verus!
