use vstd::prelude::*;

verus! {

/// One account record: a name (the lookup key), an opaque address and a
/// signed balance.
#[derive(Clone, Debug)]
pub struct Wallet {
    pub name: String,
    pub address: String,
    pub balance: i64,
}

/// Which way a balance update moves the balance.
#[derive(Clone, Copy, Debug, PartialEq, Eq, Structural)]
pub enum Direction {
    Credit,
    Debit,
}

/// Whether some record of `s` carries the name `name`.
pub open spec fn has_name(s: Seq<Wallet>, name: Seq<char>) -> bool {
    exists|i: int| 0 <= i < s.len() && #[trigger] s[i].name@ == name
}

/// `i` is the first position of `s` whose record is named `name`.
pub open spec fn is_first_match(s: Seq<Wallet>, name: Seq<char>, i: int) -> bool {
    &&& 0 <= i < s.len()
    &&& s[i].name@ == name
    &&& forall|j: int| 0 <= j < i ==> #[trigger] s[j].name@ != name
}

/// `i` is the last position of `s` whose record is named `name`.
pub open spec fn is_last_match(s: Seq<Wallet>, name: Seq<char>, i: int) -> bool {
    &&& 0 <= i < s.len()
    &&& s[i].name@ == name
    &&& forall|j: int| i < j < s.len() ==> #[trigger] s[j].name@ != name
}

/// The position of the first record named `name` (meaningful when there is one).
pub open spec fn first_index(s: Seq<Wallet>, name: Seq<char>) -> int {
    choose|i: int| is_first_match(s, name, i)
}

/// The position of the last record named `name` (meaningful when there is one).
pub open spec fn last_index(s: Seq<Wallet>, name: Seq<char>) -> int {
    choose|i: int| is_last_match(s, name, i)
}

/// The balance that a lookup by `name` reports: that of the first match.
pub open spec fn balance_of(s: Seq<Wallet>, name: Seq<char>) -> Option<i64> {
    if has_name(s, name) {
        Some(s[first_index(s, name)].balance)
    } else {
        None
    }
}

/// The address that a lookup by `name` reports: that of the last match.
pub open spec fn address_of(s: Seq<Wallet>, name: Seq<char>) -> Option<Seq<char>> {
    if has_name(s, name) {
        Some(s[last_index(s, name)].address@)
    } else {
        None
    }
}

/// The balance `balance` moved by `amount` in the given direction.
pub open spec fn applied(balance: i64, amount: i64, direction: Direction) -> int {
    match direction {
        Direction::Credit => balance + amount,
        Direction::Debit => balance - amount,
    }
}

/// Whether moving `balance` by `amount` stays within the range of `i64`.
pub open spec fn applied_fits(balance: i64, amount: i64, direction: Direction) -> bool {
    i64::MIN <= applied(balance, amount, direction) <= i64::MAX
}

/// Whether a balance update by `name` on `s` stays within the range of `i64`
/// (it always does where no record is named `name`).
pub open spec fn update_fits(
    s: Seq<Wallet>,
    name: Seq<char>,
    amount: i64,
    direction: Direction,
) -> bool {
    match balance_of(s, name) {
        Some(b) => applied_fits(b, amount, direction),
        None => true,
    }
}

/// The record `w` with its balance replaced by `balance`.
pub open spec fn with_balance(w: Wallet, balance: i64) -> Wallet {
    Wallet { name: w.name, address: w.address, balance }
}

/// The collection after a balance update by `name`: the first match has its
/// balance moved, every other record stays; without a match nothing changes.
pub open spec fn updated(
    s: Seq<Wallet>,
    name: Seq<char>,
    amount: i64,
    direction: Direction,
) -> Seq<Wallet> {
    if has_name(s, name) {
        let i = first_index(s, name);
        s.update(i, with_balance(s[i], applied(s[i].balance, amount, direction) as i64))
    } else {
        s
    }
}

/// A collection holding a record named `name` has a first such record, and
/// `first_index` is it.
pub proof fn lemma_first_index(s: Seq<Wallet>, name: Seq<char>)
    requires
        has_name(s, name),
    ensures
        is_first_match(s, name, first_index(s, name)),
{
    let k = choose|k: int| 0 <= k < s.len() && #[trigger] s[k].name@ == name;
    lemma_first_below(s, name, k + 1);
}

proof fn lemma_first_below(s: Seq<Wallet>, name: Seq<char>, m: int)
    requires
        0 <= m <= s.len(),
        exists|k: int| 0 <= k < m && #[trigger] s[k].name@ == name,
    ensures
        is_first_match(s, name, first_index(s, name)),
    decreases m,
{
    if exists|k: int| 0 <= k < m - 1 && #[trigger] s[k].name@ == name {
        lemma_first_below(s, name, m - 1);
    } else {
        assert(is_first_match(s, name, m - 1));
    }
}

/// A collection holding a record named `name` has a last such record, and
/// `last_index` is it.
pub proof fn lemma_last_index(s: Seq<Wallet>, name: Seq<char>)
    requires
        has_name(s, name),
    ensures
        is_last_match(s, name, last_index(s, name)),
{
    let k = choose|k: int| 0 <= k < s.len() && #[trigger] s[k].name@ == name;
    lemma_last_above(s, name, k);
}

proof fn lemma_last_above(s: Seq<Wallet>, name: Seq<char>, m: int)
    requires
        0 <= m <= s.len(),
        exists|k: int| m <= k < s.len() && #[trigger] s[k].name@ == name,
    ensures
        is_last_match(s, name, last_index(s, name)),
    decreases s.len() - m,
{
    if exists|k: int| m + 1 <= k < s.len() && #[trigger] s[k].name@ == name {
        lemma_last_above(s, name, m + 1);
    } else {
        assert(is_last_match(s, name, m));
    }
}

/// There is at most one first match.
pub proof fn lemma_first_match_unique(s: Seq<Wallet>, name: Seq<char>, i: int, j: int)
    requires
        is_first_match(s, name, i),
        is_first_match(s, name, j),
    ensures
        i == j,
{
    if i < j {
        assert(s[i].name@ != name);
    } else if j < i {
        assert(s[j].name@ != name);
    }
}

/// There is at most one last match.
pub proof fn lemma_last_match_unique(s: Seq<Wallet>, name: Seq<char>, i: int, j: int)
    requires
        is_last_match(s, name, i),
        is_last_match(s, name, j),
    ensures
        i == j,
{
    if i < j {
        assert(s[j].name@ != name);
    } else if j < i {
        assert(s[i].name@ != name);
    }
}

impl Wallet {
    /// Whether a record named `name` is in `wallets`.
    pub fn name_exists(wallets: &Vec<Wallet>, name: &String) -> (r: bool)
        ensures
            r == has_name(wallets@, name@),
    {
        let mut i: usize = 0;
        while i < wallets.len()
            invariant
                0 <= i <= wallets.len(),
                forall|j: int| 0 <= j < i ==> #[trigger] wallets@[j].name@ != name@,
            decreases wallets.len() - i,
        {
            if wallets[i].name == *name {
                return true;
            }
            i = i + 1;
        }
        false
    }

    /// The address of the last record named `name`, or `None` where there is
    /// no such record.
    pub fn get_wallet_address(wallets: &Vec<Wallet>, name: String) -> (r: Option<String>)
        ensures
            match r {
                Some(a) => address_of(wallets@, name@) == Some(a@),
                None => address_of(wallets@, name@) is None,
            },
    {
        let mut found: Option<usize> = None;
        let mut i: usize = 0;
        while i < wallets.len()
            invariant
                0 <= i <= wallets.len(),
                match found {
                    Some(k) => {
                        &&& k < i
                        &&& wallets@[k as int].name@ == name@
                        &&& forall|j: int| k < j < i ==> #[trigger] wallets@[j].name@ != name@
                    },
                    None => forall|j: int| 0 <= j < i ==> #[trigger] wallets@[j].name@ != name@,
                },
            decreases wallets.len() - i,
        {
            if wallets[i].name == name {
                found = Some(i);
            }
            i = i + 1;
        }
        match found {
            Some(k) => {
                proof {
                    assert(is_last_match(wallets@, name@, k as int));
                    assert(has_name(wallets@, name@));
                    lemma_last_index(wallets@, name@);
                    lemma_last_match_unique(
                        wallets@,
                        name@,
                        k as int,
                        last_index(wallets@, name@),
                    );
                }
                Some(wallets[k].address.clone())
            },
            None => None,
        }
    }

    /// Applies a credit or debit of `amount` to the first record named
    /// `name`, leaving every other record as it was. Returns whether such a
    /// record was found; without one, nothing changes.
    pub fn update_balance(
        wallets: &mut Vec<Wallet>,
        name: String,
        amount: i64,
        direction: Direction,
    ) -> (found: bool)
        requires
            update_fits(old(wallets)@, name@, amount, direction),
        ensures
            found == has_name(old(wallets)@, name@),
            final(wallets)@ == updated(old(wallets)@, name@, amount, direction),
    {
        let mut i: usize = 0;
        while i < wallets.len()
            invariant
                0 <= i <= wallets.len(),
                wallets@ == old(wallets)@,
                update_fits(old(wallets)@, name@, amount, direction),
                forall|j: int| 0 <= j < i ==> #[trigger] wallets@[j].name@ != name@,
            decreases wallets.len() - i,
        {
            if wallets[i].name == name {
                proof {
                    assert(is_first_match(wallets@, name@, i as int));
                    assert(has_name(wallets@, name@));
                    lemma_first_index(wallets@, name@);
                    lemma_first_match_unique(
                        wallets@,
                        name@,
                        i as int,
                        first_index(wallets@, name@),
                    );
                }
                let balance = wallets[i].balance;
                let new_balance = match direction {
                    Direction::Credit => balance + amount,
                    Direction::Debit => balance - amount,
                };
                wallets[i].balance = new_balance;
                assert(wallets@ =~= updated(old(wallets)@, name@, amount, direction));
                return true;
            }
            i = i + 1;
        }
        false
    }

    /// The balance of the first record named `name`, or `None` where there is
    /// no such record.
    pub fn get_balance(wallets: &Vec<Wallet>, name: String) -> (r: Option<i64>)
        ensures
            r == balance_of(wallets@, name@),
    {
        let mut i: usize = 0;
        while i < wallets.len()
            invariant
                0 <= i <= wallets.len(),
                forall|j: int| 0 <= j < i ==> #[trigger] wallets@[j].name@ != name@,
            decreases wallets.len() - i,
        {
            if wallets[i].name == name {
                proof {
                    assert(is_first_match(wallets@, name@, i as int));
                    assert(has_name(wallets@, name@));
                    lemma_first_index(wallets@, name@);
                    lemma_first_match_unique(
                        wallets@,
                        name@,
                        i as int,
                        first_index(wallets@, name@),
                    );
                }
                return Some(wallets[i].balance);
            }
            i = i + 1;
        }
        None
    }
}

} // verus!
