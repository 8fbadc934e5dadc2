//! The registry of pool metadata.

use vstd::prelude::*;

verus! {

/// The static facts of one pool.
#[derive(Debug, PartialEq, Eq)]
pub struct PoolMeta {
    /// Identifier of the pool.
    pub id: String,
    /// First token of the pair.
    pub token_a: String,
    /// Second token of the pair.
    pub token_b: String,
    /// Decimal places of the first token.
    pub decimals_a: u8,
    /// Decimal places of the second token.
    pub decimals_b: u8,
    /// Image of the first token.
    pub image_a: Option<String>,
    /// Image of the second token.
    pub image_b: Option<String>,
}

/// Mathematical value of a [`PoolMeta`].
pub struct PoolMetaView {
    pub id: Seq<char>,
    pub token_a: Seq<char>,
    pub token_b: Seq<char>,
    pub decimals_a: u8,
    pub decimals_b: u8,
    pub image_a: Option<Seq<char>>,
    pub image_b: Option<Seq<char>>,
}

/// The text of an optional string.
pub open spec fn optional_text(s: Option<String>) -> Option<Seq<char>> {
    match s {
        Some(text) => Some(text@),
        None => None,
    }
}

impl View for PoolMeta {
    type V = PoolMetaView;

    open spec fn view(&self) -> PoolMetaView {
        PoolMetaView {
            id: self.id@,
            token_a: self.token_a@,
            token_b: self.token_b@,
            decimals_a: self.decimals_a,
            decimals_b: self.decimals_b,
            image_a: optional_text(self.image_a),
            image_b: optional_text(self.image_b),
        }
    }
}

fn clone_optional(s: &Option<String>) -> (r: Option<String>)
    ensures
        optional_text(r) == optional_text(*s),
{
    match s {
        Some(text) => Some(text.clone()),
        None => None,
    }
}

impl Clone for PoolMeta {
    fn clone(&self) -> (r: Self)
        ensures
            r@ == self@,
    {
        PoolMeta {
            id: self.id.clone(),
            token_a: self.token_a.clone(),
            token_b: self.token_b.clone(),
            decimals_a: self.decimals_a,
            decimals_b: self.decimals_b,
            image_a: clone_optional(&self.image_a),
            image_b: clone_optional(&self.image_b),
        }
    }
}

/// The values of a list of pools, in order.
pub open spec fn pool_views(pools: Seq<PoolMeta>) -> Seq<PoolMetaView> {
    pools.map_values(|p: PoolMeta| p@)
}

/// The place of the first pool of `reg` with the identifier `id`, or the
/// length of `reg` where there is none.
pub open spec fn place_of(reg: Seq<PoolMetaView>, id: Seq<char>) -> int
    decreases reg.len(),
{
    if reg.len() == 0 {
        0
    } else if reg[0].id == id {
        0
    } else {
        1 + place_of(reg.skip(1), id)
    }
}

/// The registry after `pool` was entered: in the place of the pool with the
/// same identifier where there is one, else at the end.
pub open spec fn entered(reg: Seq<PoolMetaView>, pool: PoolMetaView) -> Seq<PoolMetaView> {
    if place_of(reg, pool.id) < reg.len() {
        reg.update(place_of(reg, pool.id), pool)
    } else {
        reg.push(pool)
    }
}

/// The registry that a list of pools stands for: each pool entered in turn,
/// a later pool replacing an earlier one with the same identifier.
pub open spec fn loaded(pools: Seq<PoolMetaView>) -> Seq<PoolMetaView>
    decreases pools.len(),
{
    if pools.len() == 0 {
        Seq::empty()
    } else {
        entered(loaded(pools.drop_last()), pools.last())
    }
}

/// [`place_of`] finds the first pool with the identifier.
pub proof fn lemma_place_of(reg: Seq<PoolMetaView>, id: Seq<char>, at: int)
    requires
        0 <= at <= reg.len(),
        forall|j: int| 0 <= j < at ==> (#[trigger] reg[j]).id != id,
        at < reg.len() ==> reg[at].id == id,
    ensures
        place_of(reg, id) == at,
    decreases reg.len(),
{
    if reg.len() > 0 && at > 0 {
        assert(reg[0].id != id);
        assert forall|j: int| 0 <= j < at - 1 implies (#[trigger] reg.skip(1)[j]).id != id by {
            assert(reg[j + 1].id != id);
        }
        lemma_place_of(reg.skip(1), id, at - 1);
    }
}

/// The registry of pools, in the order in which their identifiers first
/// appeared.
pub struct PoolRegistry {
    pools: Vec<PoolMeta>,
}

impl View for PoolRegistry {
    type V = Seq<PoolMetaView>;

    closed spec fn view(&self) -> Seq<PoolMetaView> {
        pool_views(self.pools@)
    }
}

impl PoolRegistry {
    /// A registry without pools.
    pub fn new() -> (r: PoolRegistry)
        ensures
            r@ == Seq::<PoolMetaView>::empty(),
    {
        let r = PoolRegistry { pools: Vec::new() };
        proof {
            assert(r@ =~= Seq::<PoolMetaView>::empty());
        }
        r
    }

    /// The pools of the registry.
    pub fn list(&self) -> (r: Vec<PoolMeta>)
        ensures
            pool_views(r@) == self@,
    {
        let mut out: Vec<PoolMeta> = Vec::with_capacity(self.pools.len());
        let mut i: usize = 0;
        while i < self.pools.len()
            invariant
                i <= self.pools@.len(),
                out@.len() == i,
                forall|j: int| 0 <= j < i ==> out@[j]@ == self.pools@[j]@,
            decreases self.pools@.len() - i,
        {
            out.push(self.pools[i].clone());
            i += 1;
        }
        proof {
            assert(pool_views(out@) =~= self@);
        }
        out
    }

    /// Replaces the registry by the pools of a freshly read file.
    pub fn load(&mut self, pools: Vec<PoolMeta>)
        ensures
            final(self)@ == loaded(pool_views(pools@)),
    {
        let ghost all = pool_views(pools@);
        let mut reg: Vec<PoolMeta> = Vec::new();
        let mut i: usize = 0;
        proof {
            assert(pool_views(reg@) =~= loaded(all.take(0)));
        }
        while i < pools.len()
            invariant
                i <= pools@.len(),
                all == pool_views(pools@),
                pool_views(reg@) == loaded(all.take(i as int)),
            decreases pools@.len() - i,
        {
            let ghost before = pool_views(reg@);
            let pool = pools[i].clone();
            proof {
                assert(all.take(i as int + 1).drop_last() =~= all.take(i as int));
                assert(all.take(i as int + 1).last() == pool@);
            }
            let mut at: usize = 0;
            while at < reg.len() && !(reg[at].id == pool.id)
                invariant
                    at <= reg@.len(),
                    forall|j: int| 0 <= j < at ==> (#[trigger] reg@[j]).id@ != pool.id@,
                decreases reg@.len() - at,
            {
                at += 1;
            }
            proof {
                assert forall|j: int| 0 <= j < at implies (#[trigger] before[j]).id != pool.id@ by {
                    assert(reg@[j].id@ != pool.id@);
                }
                lemma_place_of(before, pool.id@, at as int);
            }
            if at < reg.len() {
                reg[at] = pool;
                proof {
                    assert(pool_views(reg@) =~= before.update(at as int, pool@));
                }
            } else {
                reg.push(pool);
                proof {
                    assert(pool_views(reg@) =~= before.push(pool@));
                }
            }
            i += 1;
        }
        proof {
            assert(all.take(pools@.len() as int) =~= all);
        }
        self.pools = reg;
    }
}

} // verus!
