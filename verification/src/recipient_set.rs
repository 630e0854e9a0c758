//! The set of recipients of one notification, kept in the order in which
//! they are listed.

use vstd::prelude::*;
use crate::text::{lemma_str_lt_transitive, lemma_str_lt_trichotomy, placement, str_lt, texts, Placement};

verus! {

/// Each element comes before all later ones.
pub open spec fn strictly_increasing(s: Seq<Seq<char>>) -> bool {
    forall|i: int, j: int| 0 <= i < j < s.len() ==> str_lt(#[trigger] s[i], #[trigger] s[j])
}

/// `s` lists the members of `set`, each once, in increasing order.
pub open spec fn lists(s: Seq<Seq<char>>, set: Set<Seq<char>>) -> bool {
    &&& strictly_increasing(s)
    &&& s.to_set() == set
}

/// The members of a finite set of texts in increasing order.
pub open spec fn listing(set: Set<Seq<char>>) -> Seq<Seq<char>> {
    choose|s: Seq<Seq<char>>| lists(s, set)
}

/// One recipient as it stands in a ping list: wrapped in angle brackets.
pub open spec fn mention(recipient: Seq<char>) -> Seq<char> {
    seq!['<'] + recipient + seq!['>']
}

/// The ping list of recipients in the given order: their mentions, one after
/// the other, with nothing between them.
pub open spec fn ping_text(order: Seq<Seq<char>>) -> Seq<char>
    decreases order.len(),
{
    if order.len() == 0 {
        Seq::empty()
    } else {
        ping_text(order.drop_last()) + mention(order.last())
    }
}

/// A strictly increasing sequence holds nothing twice.
pub proof fn lemma_increasing_no_duplicates(s: Seq<Seq<char>>)
    requires
        strictly_increasing(s),
    ensures
        s.no_duplicates(),
{
    assert forall|i: int, j: int| 0 <= i < s.len() && 0 <= j < s.len() && i != j implies s[i]
        != s[j] by {
        lemma_str_lt_trichotomy(s[i], s[j]);
        if i < j {
            assert(str_lt(s[i], s[j]));
        } else {
            assert(str_lt(s[j], s[i]));
        }
    }
}

/// The last element of an increasing sequence is the greatest.
proof fn lemma_last_is_greatest(s: Seq<Seq<char>>, x: Seq<char>)
    requires
        strictly_increasing(s),
        s.contains(x),
    ensures
        x == s.last() || str_lt(x, s.last()),
{
    let i = choose|i: int| 0 <= i < s.len() && s[i] == x;
    if i < s.len() - 1 {
        assert(str_lt(s[i], s[s.len() - 1]));
    }
}

proof fn lemma_drop_last_lists(s: Seq<Seq<char>>, set: Set<Seq<char>>)
    requires
        lists(s, set),
        s.len() > 0,
    ensures
        lists(s.drop_last(), set.remove(s.last())),
{
    let t = s.drop_last();
    let m = s.last();
    assert forall|i: int, j: int| 0 <= i < j < t.len() implies str_lt(
        #[trigger] t[i],
        #[trigger] t[j],
    ) by {
        assert(str_lt(s[i], s[j]));
    }
    assert forall|x: Seq<char>| t.to_set().contains(x) <==> set.remove(m).contains(x) by {
        if t.to_set().contains(x) {
            let i = choose|i: int| 0 <= i < t.len() && t[i] == x;
            assert(s[i] == x);
            assert(s.contains(x));
            assert(str_lt(s[i], s[s.len() - 1]));
            lemma_str_lt_trichotomy(x, m);
        }
        if set.remove(m).contains(x) {
            assert(s.to_set().contains(x));
            let i = choose|i: int| 0 <= i < s.len() && s[i] == x;
            assert(t[i] == x);
        }
    }
    assert(t.to_set() =~= set.remove(m));
}

/// A set has at most one listing.
pub proof fn lemma_listing_unique(a: Seq<Seq<char>>, b: Seq<Seq<char>>, set: Set<Seq<char>>)
    requires
        lists(a, set),
        lists(b, set),
    ensures
        a == b,
    decreases a.len(),
{
    if a.len() == 0 {
        if b.len() > 0 {
            assert(b.contains(b[0]));
            assert(a.to_set().contains(b[0]));
        }
        assert(a =~= b);
    } else {
        assert(a.contains(a.last()));
        assert(b.to_set().contains(a.last()));
        assert(b.len() > 0);
        assert(b.contains(b.last()));
        assert(a.to_set().contains(b.last()));
        lemma_last_is_greatest(a, b.last());
        lemma_last_is_greatest(b, a.last());
        lemma_str_lt_trichotomy(a.last(), b.last());
        lemma_drop_last_lists(a, set);
        lemma_drop_last_lists(b, set);
        lemma_listing_unique(a.drop_last(), b.drop_last(), set.remove(a.last()));
        assert(a =~= a.drop_last().push(a.last()));
        assert(b =~= b.drop_last().push(b.last()));
    }
}

/// Whatever lists a set is its listing.
pub proof fn lemma_listing_is(s: Seq<Seq<char>>, set: Set<Seq<char>>)
    requires
        lists(s, set),
    ensures
        listing(set) == s,
{
    lemma_listing_unique(listing(set), s, set);
}

/// Putting `x` at the place where an increasing sequence stops being below
/// it keeps the sequence increasing.
proof fn lemma_insert_keeps_order(s: Seq<Seq<char>>, at: int, x: Seq<char>)
    requires
        strictly_increasing(s),
        0 <= at <= s.len(),
        forall|k: int| 0 <= k < at ==> str_lt(#[trigger] s[k], x),
        at < s.len() ==> str_lt(x, s[at]),
    ensures
        strictly_increasing(s.insert(at, x)),
        s.insert(at, x).to_set() == s.to_set().insert(x),
{
    let t = s.insert(at, x);
    assert forall|i: int, j: int| 0 <= i < j < t.len() implies str_lt(
        #[trigger] t[i],
        #[trigger] t[j],
    ) by {
        if j < at {
            assert(str_lt(s[i], s[j]));
        } else if j == at {
            assert(str_lt(s[i], x));
        } else if i == at {
            if j - 1 > at {
                assert(str_lt(s[at], s[j - 1]));
                lemma_str_lt_transitive(x, s[at], s[j - 1]);
            }
        } else if i < at {
            assert(str_lt(s[i], s[j - 1]));
        } else {
            assert(str_lt(s[i - 1], s[j - 1]));
        }
    }
    assert forall|y: Seq<char>| t.to_set().contains(y) <==> s.to_set().insert(x).contains(y) by {
        if t.to_set().contains(y) {
            let i = choose|i: int| 0 <= i < t.len() && t[i] == y;
            if i < at {
                assert(s[i] == y);
            } else if i > at {
                assert(s[i - 1] == y);
            }
        }
        if s.to_set().contains(y) {
            let i = choose|i: int| 0 <= i < s.len() && s[i] == y;
            if i < at {
                assert(t[i] == y);
            } else {
                assert(t[i + 1] == y);
            }
        }
        if y == x {
            assert(t[at] == y);
        }
    }
    assert(t.to_set() =~= s.to_set().insert(x));
}

/// The first place from `from` on at which `s` does not hold something
/// below `x`.
spec fn insertion_point(s: Seq<Seq<char>>, x: Seq<char>, from: int) -> int
    decreases s.len() - from,
{
    if from >= s.len() {
        from
    } else if str_lt(s[from], x) {
        insertion_point(s, x, from + 1)
    } else {
        from
    }
}

proof fn lemma_insertion_point(s: Seq<Seq<char>>, x: Seq<char>, from: int)
    requires
        0 <= from <= s.len(),
    ensures
        from <= insertion_point(s, x, from) <= s.len(),
        forall|k: int| from <= k < insertion_point(s, x, from) ==> str_lt(#[trigger] s[k], x),
        insertion_point(s, x, from) < s.len() ==> !str_lt(s[insertion_point(s, x, from)], x),
    decreases s.len() - from,
{
    if from < s.len() && str_lt(s[from], x) {
        lemma_insertion_point(s, x, from + 1);
    }
}

/// Every finite set of texts has a listing.
pub proof fn lemma_listing_exists(set: Set<Seq<char>>)
    requires
        set.finite(),
    ensures
        lists(listing(set), set),
    decreases set.len(),
{
    if set.len() == 0 {
        let none = Seq::<Seq<char>>::empty();
        assert(set =~= Set::<Seq<char>>::empty());
        assert(none.to_set() =~= set);
        assert(lists(none, set));
    } else {
        let x = set.choose();
        let rest = set.remove(x);
        lemma_listing_exists(rest);
        let s = listing(rest);
        let at = insertion_point(s, x, 0);
        lemma_insertion_point(s, x, 0);
        if at < s.len() {
            assert(s.contains(s[at]));
            assert(rest.contains(s[at]));
            lemma_str_lt_trichotomy(s[at], x);
        }
        lemma_insert_keeps_order(s, at, x);
        assert(rest.insert(x) =~= set);
        assert(lists(s.insert(at, x), set));
    }
}

/// The listing of a finite set holds each member once and nothing else.
pub proof fn lemma_listing_holds_each_once(set: Set<Seq<char>>)
    requires
        set.finite(),
    ensures
        listing(set).no_duplicates(),
        listing(set).to_set() == set,
        listing(set).len() == set.len(),
        strictly_increasing(listing(set)),
{
    lemma_listing_exists(set);
    lemma_increasing_no_duplicates(listing(set));
    listing(set).unique_seq_to_set();
}

/// A set of recipients. Nothing is in it twice, and it is kept in the order
/// of `str_lt`, in which `render` lists it.
pub struct RecipientSet {
    items: Vec<String>,
}

impl RecipientSet {
    /// The recipients in the order in which they are held.
    pub closed spec fn ordered(&self) -> Seq<Seq<char>> {
        texts(self.items@)
    }

    /// The recipients as a set.
    pub open spec fn view(&self) -> Set<Seq<char>> {
        self.ordered().to_set()
    }

    #[verifier::type_invariant]
    spec fn well_formed(self) -> bool {
        strictly_increasing(self.ordered())
    }

    /// The empty set.
    pub fn new() -> (set: Self)
        ensures
            set@ == Set::<Seq<char>>::empty(),
    {
        let set = RecipientSet { items: Vec::new() };
        assert(set.ordered() =~= Seq::empty());
        assert(set@ =~= Set::<Seq<char>>::empty());
        set
    }

    /// Whether the set holds nobody.
    pub fn is_empty(&self) -> (empty: bool)
        ensures
            empty == (self@ == Set::<Seq<char>>::empty()),
    {
        let empty = self.items.len() == 0;
        proof {
            if empty {
                assert(self.ordered() =~= Seq::empty());
                assert(self@ =~= Set::<Seq<char>>::empty());
            } else {
                assert(self.ordered().contains(self.ordered()[0]));
                assert(self@.contains(self.ordered()[0]));
            }
        }
        empty
    }

    /// The number of recipients in the set.
    pub fn len(&self) -> (n: usize)
        ensures
            self@.finite(),
            n == self@.len(),
    {
        proof {
            use_type_invariant(self);
            lemma_increasing_no_duplicates(self.ordered());
            self.ordered().unique_seq_to_set();
            vstd::seq_lib::seq_to_set_is_finite(self.ordered());
        }
        self.items.len()
    }

    /// Adds a recipient, unless the set holds it already. Says whether it
    /// was added.
    pub fn insert(&mut self, recipient: &str) -> (added: bool)
        ensures
            final(self)@ == old(self)@.insert(recipient@),
            added == !old(self)@.contains(recipient@),
    {
        proof {
            use_type_invariant(&*self);
        }
        let ghost before = self.ordered();
        let n = self.items.len();
        let mut at: usize = 0;
        let mut found = false;
        while at < n
            invariant_except_break
                !found,
                forall|k: int| 0 <= k < at ==> str_lt(#[trigger] before[k], recipient@),
            invariant
                n == self.items.len(),
                before == texts(self.items@),
                strictly_increasing(before),
                at <= n,
            ensures
                at <= n,
                found ==> at < n && before[at as int] == recipient@,
                !found ==> forall|k: int| 0 <= k < at ==> str_lt(#[trigger] before[k], recipient@),
                !found && at < n ==> str_lt(recipient@, before[at as int]),
            decreases n - at,
        {
            match placement(self.items[at].as_str(), recipient) {
                Placement::Before => {
                    at += 1;
                },
                Placement::Same => {
                    found = true;
                    break ;
                },
                Placement::After => {
                    break ;
                },
            }
        }
        if found {
            proof {
                assert(before.contains(recipient@));
                assert(self@ =~= self@.insert(recipient@));
            }
            false
        } else {
            proof {
                lemma_insert_keeps_order(before, at as int, recipient@);
                assert(!before.to_set().contains(recipient@)) by {
                    if before.contains(recipient@) {
                        let i = choose|i: int| 0 <= i < before.len() && before[i] == recipient@;
                        lemma_str_lt_trichotomy(before[i], recipient@);
                        if i >= at {
                            if i > at {
                                assert(str_lt(before[at as int], before[i]));
                                lemma_str_lt_transitive(recipient@, before[at as int], before[i]);
                            }
                        }
                    }
                }
            }
            let mut items: Vec<String> = Vec::new();
            std::mem::swap(&mut items, &mut self.items);
            items.insert(at, recipient.to_owned());
            assert(texts(items@) =~= before.insert(at as int, recipient@));
            self.items = items;
            true
        }
    }

    /// The ping list: the mention of every recipient, in increasing order.
    pub fn render(&self) -> (list: String)
        ensures
            self@.finite(),
            lists(listing(self@), self@),
            list@ == ping_text(listing(self@)),
    {
        proof {
            use_type_invariant(self);
            lemma_listing_is(self.ordered(), self@);
            vstd::seq_lib::seq_to_set_is_finite(self.ordered());
            reveal_strlit("<");
            reveal_strlit(">");
        }
        let ghost order = self.ordered();
        let mut list = String::new();
        let mut i: usize = 0;
        while i < self.items.len()
            invariant
                order == texts(self.items@),
                i <= self.items.len(),
                list@ == ping_text(order.take(i as int)),
                "<"@ == seq!['<'],
                ">"@ == seq!['>'],
            decreases self.items.len() - i,
        {
            list.append("<");
            list.append(self.items[i].as_str());
            list.append(">");
            proof {
                let next = order.take(i + 1);
                assert(next.drop_last() =~= order.take(i as int));
                assert(next.last() == order[i as int]);
                assert(list@ =~= ping_text(next.drop_last()) + mention(next.last()));
            }
            i += 1;
        }
        assert(order.take(i as int) =~= order);
        list
    }
}

} // verus!
