use vstd::prelude::*;
use crate::wallet::{
    Direction, Wallet, address_of, applied, applied_fits, balance_of, first_index, has_name,
    is_first_match, is_last_match, last_index, lemma_first_index, lemma_first_match_unique,
    lemma_last_index, lemma_last_match_unique, updated,
};

verus! {

/// A balance update keeps the length of the collection and the name of every
/// record, so it keeps which record is the first match for any name.
proof fn lemma_updated_keeps_names(
    s: Seq<Wallet>,
    name: Seq<char>,
    amount: i64,
    direction: Direction,
    other: Seq<char>,
)
    ensures
        updated(s, name, amount, direction).len() == s.len(),
        forall|j: int|
            0 <= j < s.len() ==> #[trigger] updated(s, name, amount, direction)[j].name@
                == s[j].name@,
        has_name(updated(s, name, amount, direction), other) == has_name(s, other),
        has_name(s, other) ==> first_index(updated(s, name, amount, direction), other)
            == first_index(s, other),
{
    let t = updated(s, name, amount, direction);
    if has_name(s, name) {
        lemma_first_index(s, name);
    }
    assert forall|j: int| 0 <= j < s.len() implies #[trigger] t[j].name@ == s[j].name@ by {}
    if has_name(s, other) {
        let k = choose|k: int| 0 <= k < s.len() && #[trigger] s[k].name@ == other;
        assert(t[k].name@ == other);
        lemma_first_index(s, other);
        lemma_first_index(t, other);
        let i = first_index(s, other);
        let i2 = first_index(t, other);
        assert(is_first_match(t, other, i)) by {
            assert forall|j: int| 0 <= j < i implies #[trigger] t[j].name@ != other by {
                assert(s[j].name@ != other);
            }
        }
        lemma_first_match_unique(t, other, i, i2);
    }
    if has_name(t, other) {
        let k = choose|k: int| 0 <= k < t.len() && #[trigger] t[k].name@ == other;
        assert(s[k].name@ == other);
    }
}

/// After a record is appended, a name is present exactly when it was present
/// before or is the new record's name; in particular the new name is present,
/// and a name that was never appended is absent.
pub proof fn law_exists_after_insert(s: Seq<Wallet>, w: Wallet, name: Seq<char>)
    ensures
        has_name(s.push(w), name) == (has_name(s, name) || name == w.name@),
        has_name(s.push(w), w.name@),
        !has_name(Seq::<Wallet>::empty(), name),
{
    let t = s.push(w);
    assert(t[s.len() as int] == w);
    if has_name(s, name) {
        let k = choose|k: int| 0 <= k < s.len() && #[trigger] s[k].name@ == name;
        assert(t[k].name@ == name);
    }
    if has_name(t, name) {
        let k = choose|k: int| 0 <= k < t.len() && #[trigger] t[k].name@ == name;
        if k < s.len() {
            assert(s[k].name@ == name);
        }
    }
}

/// The address looked up by a name right after a record with that name is
/// appended is the appended record's address, unchanged.
pub proof fn law_address_round_trip(s: Seq<Wallet>, w: Wallet)
    ensures
        address_of(s.push(w), w.name@) == Some(w.address@),
{
    let t = s.push(w);
    let n = s.len() as int;
    assert(t[n] == w);
    assert(is_last_match(t, w.name@, n));
    assert(has_name(t, w.name@));
    lemma_last_index(t, w.name@);
    lemma_last_match_unique(t, w.name@, n, last_index(t, w.name@));
}

/// The balance looked up by a name right after a record with that name is
/// appended is the appended record's balance, where no earlier record had that
/// name.
pub proof fn law_balance_round_trip(s: Seq<Wallet>, w: Wallet)
    requires
        !has_name(s, w.name@),
    ensures
        balance_of(s.push(w), w.name@) == Some(w.balance),
{
    let t = s.push(w);
    let n = s.len() as int;
    assert(t[n] == w);
    assert(is_first_match(t, w.name@, n)) by {
        assert forall|j: int| 0 <= j < n implies #[trigger] t[j].name@ != w.name@ by {
            assert(t[j] == s[j]);
        }
    }
    assert(has_name(t, w.name@));
    lemma_first_index(t, w.name@);
    lemma_first_match_unique(t, w.name@, n, first_index(t, w.name@));
}

/// After a credit or debit of `amount` on an account with balance `b`, its
/// balance reads `b + amount` or `b - amount`.
pub proof fn law_update_then_lookup(
    s: Seq<Wallet>,
    name: Seq<char>,
    b: i64,
    amount: i64,
    direction: Direction,
)
    requires
        balance_of(s, name) == Some(b),
        applied_fits(b, amount, direction),
    ensures
        balance_of(updated(s, name, amount, direction), name) == Some(
            applied(b, amount, direction) as i64,
        ),
{
    lemma_first_index(s, name);
    lemma_updated_keeps_names(s, name, amount, direction, name);
}

/// A credit of `amount` followed by a debit of the same amount leaves the
/// collection as it was.
pub proof fn law_credit_then_debit(s: Seq<Wallet>, name: Seq<char>, b: i64, amount: i64)
    requires
        balance_of(s, name) == Some(b),
        applied_fits(b, amount, Direction::Credit),
    ensures
        updated(updated(s, name, amount, Direction::Credit), name, amount, Direction::Debit)
            == s,
{
    let t = updated(s, name, amount, Direction::Credit);
    let u = updated(t, name, amount, Direction::Debit);
    lemma_first_index(s, name);
    lemma_updated_keeps_names(s, name, amount, Direction::Credit, name);
    let i = first_index(s, name);
    assert(first_index(t, name) == i);
    assert(u[i] == s[i]);
    assert(u =~= s);
}

/// A balance update by a name that no record carries changes nothing: every
/// record keeps its balance and no record is added.
pub proof fn law_update_missing_is_noop(
    s: Seq<Wallet>,
    name: Seq<char>,
    amount: i64,
    direction: Direction,
)
    requires
        !has_name(s, name),
    ensures
        updated(s, name, amount, direction) == s,
{
}

/// Where exactly two records share a name, the balance lookup reports the
/// first one's balance and the address lookup the second one's address.
pub proof fn law_duplicate_name_policy(s: Seq<Wallet>, name: Seq<char>, i: int, j: int)
    requires
        0 <= i < j < s.len(),
        s[i].name@ == name,
        s[j].name@ == name,
        forall|k: int| 0 <= k < s.len() && k != i && k != j ==> #[trigger] s[k].name@ != name,
    ensures
        balance_of(s, name) == Some(s[i].balance),
        address_of(s, name) == Some(s[j].address@),
{
    assert(has_name(s, name));
    assert(is_first_match(s, name, i));
    assert(is_last_match(s, name, j));
    lemma_first_index(s, name);
    lemma_last_index(s, name);
    lemma_first_match_unique(s, name, i, first_index(s, name));
    lemma_last_match_unique(s, name, j, last_index(s, name));
}

/// Debiting more than an account holds leaves it with a negative balance; no
/// floor is applied.
pub proof fn law_debit_may_go_negative(s: Seq<Wallet>, name: Seq<char>, b: i64, amount: i64)
    requires
        balance_of(s, name) == Some(b),
        amount > b,
        applied_fits(b, amount, Direction::Debit),
    ensures
        balance_of(updated(s, name, amount, Direction::Debit), name) matches Some(nb) && nb < 0
            && nb == b - amount,
{
    law_update_then_lookup(s, name, b, amount, Direction::Debit);
}

} // verus!
