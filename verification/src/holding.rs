//! One reported balance line item.

use vstd::prelude::*;

verus! {

/// A balance reported by one source for one token.
#[derive(Debug, PartialEq, Eq)]
pub struct Holding {
    /// Label of the source that reported the balance.
    pub source: String,
    /// Token symbol or contract address.
    pub token: String,
    /// Exact decimal string; never rounded.
    pub amount: String,
    /// One of `liquid`, `locked_<n>y`, `lp_escrow`, `claimable`, `error`.
    pub status: String,
}

/// Mathematical value of a [`Holding`].
pub struct HoldingView {
    pub source: Seq<char>,
    pub token: Seq<char>,
    pub amount: Seq<char>,
    pub status: Seq<char>,
}

impl View for Holding {
    type V = HoldingView;

    open spec fn view(&self) -> HoldingView {
        HoldingView {
            source: self.source@,
            token: self.token@,
            amount: self.amount@,
            status: self.status@,
        }
    }
}

impl Clone for Holding {
    fn clone(&self) -> (r: Self)
        ensures
            r@ == self@,
    {
        Holding {
            source: self.source.clone(),
            token: self.token.clone(),
            amount: self.amount.clone(),
            status: self.status.clone(),
        }
    }
}

/// True for a text made of decimal digits, at least one.
pub open spec fn is_digits(s: Seq<char>) -> bool {
    s.len() > 0 && forall|i: int| 0 <= i < s.len() ==> '0' <= #[trigger] s[i] <= '9'
}

/// The closed vocabulary of statuses: `liquid`, `lp_escrow`, `claimable`,
/// `error`, and `locked_<n>y` for a number of years `n`.
pub open spec fn known_status(s: Seq<char>) -> bool {
    ||| s == "liquid"@
    ||| s == "lp_escrow"@
    ||| s == "claimable"@
    ||| s == "error"@
    ||| exists|years: Seq<char>| is_digits(years) && s == "locked_"@ + #[trigger] (years + "y"@)
}

/// True when every holding of a list has a status of the vocabulary.
pub open spec fn all_known(items: Seq<HoldingView>) -> bool {
    forall|i: int| 0 <= i < items.len() ==> known_status((#[trigger] items[i]).status)
}

/// The statuses that this library gives out are of the vocabulary.
pub proof fn lemma_known_statuses()
    ensures
        known_status("liquid"@),
        known_status("lp_escrow"@),
        known_status("claimable"@),
        known_status("error"@),
        known_status("locked_8y"@),
{
    reveal_strlit("locked_8y");
    reveal_strlit("locked_");
    reveal_strlit("8");
    reveal_strlit("y");
    assert(is_digits("8"@));
    assert("locked_8y"@ =~= "locked_"@ + ("8"@ + "y"@));
}

/// Lists of holdings with known statuses stay so when joined or cut.
pub proof fn lemma_all_known_joined(a: Seq<HoldingView>, b: Seq<HoldingView>, keep: int)
    requires
        all_known(a),
        all_known(b),
        0 <= keep <= a.len() + b.len(),
    ensures
        all_known(a + b),
        all_known((a + b).take(keep)),
{
    assert forall|i: int| 0 <= i < (a + b).len() implies known_status((#[trigger] (a + b)[i]).status) by {
        if i < a.len() {
            assert((a + b)[i] == a[i]);
        } else {
            assert((a + b)[i] == b[i - a.len()]);
        }
    }
    assert forall|i: int| 0 <= i < (a + b).take(keep).len() implies known_status(
        (#[trigger] (a + b).take(keep)[i]).status,
    ) by {
        assert((a + b).take(keep)[i] == (a + b)[i]);
    }
}

/// The values of a list of holdings, in order.
pub open spec fn views(items: Seq<Holding>) -> Seq<HoldingView> {
    items.map_values(|h: Holding| h@)
}

impl Holding {
    /// Builds a holding from its four parts.
    pub fn new(source: &str, token: String, amount: String, status: &str) -> (h: Holding)
        ensures
            h@ == (HoldingView { source: source@, token: token@, amount: amount@, status: status@ }),
    {
        Holding {
            source: String::from_str(source),
            token,
            amount,
            status: String::from_str(status),
        }
    }
}

/// Copies a list of holdings.
pub fn clone_holdings(items: &Vec<Holding>) -> (r: Vec<Holding>)
    ensures
        views(r@) == views(items@),
{
    let mut out: Vec<Holding> = Vec::with_capacity(items.len());
    let mut i: usize = 0;
    while i < items.len()
        invariant
            i <= items.len(),
            out.len() == i,
            forall|j: int| 0 <= j < i ==> out@[j]@ == items@[j]@,
        decreases items.len() - i,
    {
        out.push(items[i].clone());
        i += 1;
    }
    proof {
        assert(views(out@) =~= views(items@));
    }
    out
}

/// Appends copies of `items` to `out`.
pub fn append_holdings(out: &mut Vec<Holding>, items: &Vec<Holding>)
    ensures
        views(final(out)@) == views(old(out)@) + views(items@),
{
    let ghost start = out@;
    let mut i: usize = 0;
    while i < items.len()
        invariant
            i <= items@.len(),
            out@.len() == start.len() + i,
            forall|j: int| 0 <= j < start.len() ==> out@[j] == start[j],
            forall|j: int| 0 <= j < i ==> out@[start.len() + j]@ == items@[j]@,
        decreases items@.len() - i,
    {
        out.push(items[i].clone());
        i += 1;
    }
    proof {
        assert(views(out@) =~= views(start) + views(items@));
    }
}

/// True when two lists of holdings have the same values.
pub fn same_holdings(a: &Vec<Holding>, b: &Vec<Holding>) -> (r: bool)
    ensures
        r == (views(a@) == views(b@)),
{
    if a.len() != b.len() {
        return false;
    }
    let mut i: usize = 0;
    while i < a.len()
        invariant
            a.len() == b.len(),
            i <= a.len(),
            forall|j: int| 0 <= j < i ==> a@[j]@ == b@[j]@,
        decreases a.len() - i,
    {
        let x = &a[i];
        let y = &b[i];
        if !(x.source == y.source && x.token == y.token && x.amount == y.amount && x.status
            == y.status) {
            proof {
                assert(views(a@)[i as int] == a@[i as int]@);
                assert(views(b@)[i as int] == b@[i as int]@);
            }
            return false;
        }
        i += 1;
    }
    proof {
        assert(views(a@) =~= views(b@));
    }
    true
}

} // verus!
