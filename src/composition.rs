use crate::protocol::StreamProtocol;
use vstd::prelude::*;

verus! {

/// The texts of a list of protocols.
pub open spec fn texts(v: Seq<StreamProtocol>) -> Seq<Seq<char>> {
    v.map_values(|p: StreamProtocol| p@)
}

/// The texts claimed by each sub-behaviour, in declaration order.
pub open spec fn claim_table(b: Seq<Vec<StreamProtocol>>) -> Seq<Seq<Seq<char>>> {
    b.map_values(|v: Vec<StreamProtocol>| texts(v@))
}

/// Sub-behaviour `i` declares protocol `p`.
pub open spec fn claims(table: Seq<Seq<Seq<char>>>, i: int, p: Seq<char>) -> bool {
    0 <= i < table.len() && table[i].contains(p)
}

/// No protocol is declared by two different sub-behaviours.
pub open spec fn ownership_disjoint(table: Seq<Seq<Seq<char>>>) -> bool {
    forall|i: int, j: int, p: Seq<char>|
        #![trigger claims(table, i, p), claims(table, j, p)]
        claims(table, i, p) && claims(table, j, p) ==> i == j
}

/// Some sub-behaviour declares protocol `p`.
pub open spec fn offered(table: Seq<Seq<Seq<char>>>, p: Seq<char>) -> bool {
    exists|i: int| claims(table, i, p)
}

/// Two sub-behaviours declare the same protocol.
#[derive(Debug)]
pub struct ProtocolOwnershipConflict {
    /// The protocol declared twice.
    pub protocol: StreamProtocol,
    /// The sub-behaviour that declares it first.
    pub first: usize,
    /// The later sub-behaviour that declares it too.
    pub second: usize,
}

/// A set of sub-behaviours with disjoint protocol ownership, presented as one.
#[derive(Debug)]
pub struct Composition {
    behaviours: Vec<Vec<StreamProtocol>>,
}

/// Whether `v` holds a protocol with the text of `p`.
pub fn contains_protocol(v: &Vec<StreamProtocol>, p: &StreamProtocol) -> (r: bool)
    ensures
        r == texts(v@).contains(p@),
{
    let mut k: usize = 0;
    while k < v.len()
        invariant
            k <= v@.len(),
            forall|m: int| 0 <= m < k ==> v@[m]@ != p@,
        decreases v@.len() - k,
    {
        if v[k] == *p {
            assert(texts(v@)[k as int] == p@);
            return true;
        }
        k = k + 1;
    }
    assert(!texts(v@).contains(p@)) by {
        if texts(v@).contains(p@) {
            let m = choose|m: int| 0 <= m < texts(v@).len() && texts(v@)[m] == p@;
            assert(v@[m]@ == p@);
        }
    }
    false
}

/// The first of the sub-behaviours before `upto` that declares `p`.
fn find_owner(b: &Vec<Vec<StreamProtocol>>, upto: usize, p: &StreamProtocol) -> (r: Option<usize>)
    requires
        upto <= b@.len(),
    ensures
        r matches Some(j) ==> j < upto && claims(claim_table(b@), j as int, p@),
        r is None ==> forall|j: int| 0 <= j < upto ==> !claims(claim_table(b@), j, p@),
{
    let mut j: usize = 0;
    while j < upto
        invariant
            j <= upto <= b@.len(),
            forall|m: int| 0 <= m < j ==> !claims(claim_table(b@), m, p@),
        decreases upto - j,
    {
        if contains_protocol(&b[j], p) {
            return Some(j);
        }
        j = j + 1;
    }
    None
}

impl Composition {
    /// The protocols declared by each sub-behaviour, in declaration order.
    pub closed spec fn view(&self) -> Seq<Seq<Seq<char>>> {
        claim_table(self.behaviours@)
    }

    #[verifier::type_invariant]
    closed spec fn well_formed(&self) -> bool {
        ownership_disjoint(claim_table(self.behaviours@))
    }

    /// Composes sub-behaviours, each given by the protocols it declares.
    ///
    /// Fails when two sub-behaviours declare the same protocol.
    pub fn new(behaviours: Vec<Vec<StreamProtocol>>) -> (r: Result<Composition, ProtocolOwnershipConflict>)
        ensures
            r.is_ok() <==> ownership_disjoint(claim_table(behaviours@)),
            r matches Ok(c) ==> c.view() == claim_table(behaviours@) && ownership_disjoint(c.view()),
            r matches Err(e) ==> e.first < e.second && claims(claim_table(behaviours@), e.first as int, e.protocol@)
                && claims(claim_table(behaviours@), e.second as int, e.protocol@),
    {
        let ghost table = claim_table(behaviours@);
        let mut i: usize = 0;
        while i < behaviours.len()
            invariant
                table == claim_table(behaviours@),
                i <= behaviours@.len(),
                forall|a: int, c: int, p: Seq<char>|
                    #![trigger claims(table, a, p), claims(table, c, p)]
                    0 <= a < c < i && claims(table, a, p) ==> !claims(table, c, p),
            decreases behaviours@.len() - i,
        {
            let mut k: usize = 0;
            while k < behaviours[i].len()
                invariant
                    table == claim_table(behaviours@),
                    i < behaviours@.len(),
                    k <= behaviours@[i as int]@.len(),
                    forall|a: int, c: int, p: Seq<char>|
                        #![trigger claims(table, a, p), claims(table, c, p)]
                        0 <= a < c < i && claims(table, a, p) ==> !claims(table, c, p),
                    forall|a: int, m: int|
                        0 <= a < i && 0 <= m < k ==> !#[trigger] claims(table, a, table[i as int][m]),
                decreases behaviours@[i as int]@.len() - k,
            {
                assert(table[i as int][k as int] == behaviours@[i as int]@[k as int]@);
                if let Some(j) = find_owner(&behaviours, i, &behaviours[i][k]) {
                    assert(claims(table, i as int, behaviours@[i as int]@[k as int]@)) by {
                        assert(table[i as int].contains(table[i as int][k as int]));
                    }
                    let protocol = behaviours[i][k].clone();
                    return Err(ProtocolOwnershipConflict { protocol, first: j, second: i });
                }
                k = k + 1;
            }
            assert forall|a: int, c: int, p: Seq<char>|
                #![trigger claims(table, a, p), claims(table, c, p)]
                0 <= a < c < i + 1 && claims(table, a, p) implies !claims(table, c, p) by {
                if c == i && claims(table, c, p) {
                    let m = choose|m: int| 0 <= m < table[c].len() && table[c][m] == p;
                    assert(!claims(table, a, table[i as int][m]));
                }
            }
            i = i + 1;
        }
        assert(ownership_disjoint(table)) by {
            assert forall|a: int, c: int, p: Seq<char>|
                #![trigger claims(table, a, p), claims(table, c, p)]
                claims(table, a, p) && claims(table, c, p) implies a == c by {
                if a < c {
                } else if c < a {
                }
            }
        }
        Ok(Composition { behaviours })
    }

    /// Every protocol that some sub-behaviour declares.
    pub fn protocols_offered(&self) -> (r: Vec<StreamProtocol>)
        ensures
            forall|p: Seq<char>| texts(r@).contains(p) <==> offered(self.view(), p),
    {
        let ghost table = self.view();
        let mut r: Vec<StreamProtocol> = Vec::new();
        let mut i: usize = 0;
        while i < self.behaviours.len()
            invariant
                table == claim_table(self.behaviours@),
                i <= table.len(),
                forall|m: int| 0 <= m < r@.len() ==> offered(table, #[trigger] r@[m]@),
                forall|a: int, p: Seq<char>|
                    0 <= a < i && #[trigger] claims(table, a, p) ==> texts(r@).contains(p),
            decreases table.len() - i,
        {
            let v = &self.behaviours[i];
            let mut k: usize = 0;
            while k < v.len()
                invariant
                    table == claim_table(self.behaviours@),
                    i < table.len(),
                    *v == self.behaviours@[i as int],
                    k <= v@.len(),
                    forall|m: int| 0 <= m < r@.len() ==> offered(table, #[trigger] r@[m]@),
                    forall|a: int, p: Seq<char>|
                        0 <= a < i && #[trigger] claims(table, a, p) ==> texts(r@).contains(p),
                    forall|m: int| 0 <= m < k ==> texts(r@).contains(#[trigger] table[i as int][m]),
                decreases v@.len() - k,
            {
                let ghost before = r@;
                let p = v[k].clone();
                assert(table[i as int][k as int] == p@);
                assert(claims(table, i as int, p@)) by {
                    assert(table[i as int].contains(table[i as int][k as int]));
                }
                r.push(p);
                assert forall|q: Seq<char>| texts(before).contains(q) implies texts(r@).contains(q) by {
                    let m = choose|m: int| 0 <= m < texts(before).len() && texts(before)[m] == q;
                    assert(texts(r@)[m] == q);
                }
                assert(texts(r@)[r@.len() - 1] == p@);
                k = k + 1;
            }
            assert forall|a: int, p: Seq<char>|
                0 <= a < i + 1 && #[trigger] claims(table, a, p) implies texts(r@).contains(p) by {
                if a == i {
                    let m = choose|m: int| 0 <= m < table[a].len() && table[a][m] == p;
                }
            }
            i = i + 1;
        }
        assert forall|p: Seq<char>| texts(r@).contains(p) implies offered(table, p) by {
            let m = choose|m: int| 0 <= m < texts(r@).len() && texts(r@)[m] == p;
            assert(offered(table, r@[m]@));
        }
        r
    }

    /// The sub-behaviour that owns protocol `p`, if any does.
    pub fn owner_of(&self, p: &StreamProtocol) -> (r: Option<usize>)
        ensures
            r matches Some(i) ==> claims(self.view(), i as int, p@)
                && forall|j: int| #[trigger] claims(self.view(), j, p@) ==> j == i,
            r is None <==> !offered(self.view(), p@),
    {
        proof {
            use_type_invariant(self);
        }
        find_owner(&self.behaviours, self.behaviours.len(), p)
    }

    /// The number of sub-behaviours.
    pub fn len(&self) -> (r: usize)
        ensures
            r == self.view().len(),
    {
        self.behaviours.len()
    }
}

/// In a composition with disjoint ownership, an offered protocol is owned
/// by exactly one sub-behaviour: the one `owner_of` names.
pub proof fn lemma_offered_has_one_owner(table: Seq<Seq<Seq<char>>>, p: Seq<char>, i: int)
    requires
        ownership_disjoint(table),
        claims(table, i, p),
    ensures
        forall|j: int| #[trigger] claims(table, j, p) ==> j == i,
{
}

/// How many turns after `start` the source `k` comes, among `n` sources
/// polled in a cycle.
pub open spec fn turn_distance(start: int, k: int, n: int) -> int {
    if k >= start {
        k - start
    } else {
        k + n - start
    }
}

/// Source `i` is the first, in turn from `start`, that has something pending.
pub open spec fn first_in_turn(pending: Seq<bool>, start: int, i: int) -> bool {
    &&& 0 <= i < pending.len()
    &&& pending[i]
    &&& forall|k: int|
        0 <= k < pending.len() && #[trigger] pending[k] ==> turn_distance(start, i, pending.len() as int)
            <= turn_distance(start, k, pending.len() as int)
}

/// Round-robin polling: the first source, starting at `start` (taken modulo
/// the number of sources) and wrapping around, that has something pending.
/// A caller that starts the next round after the source it served lets no
/// source starve another.
pub fn next_in_turn(pending: &Vec<bool>, start: usize) -> (r: Option<usize>)
    ensures
        r is None <==> forall|k: int| 0 <= k < pending@.len() ==> !#[trigger] pending@[k],
        r matches Some(i) ==> first_in_turn(pending@, (start as int) % (pending@.len() as int), i as int),
{
    let n = pending.len();
    if n == 0 {
        return None;
    }
    let s = start % n;
    assert(s as int == (start as int) % (n as int));
    let mut step: usize = 0;
    while step < n
        invariant
            n == pending@.len(),
            s < n,
            s as int == (start as int) % (n as int),
            step <= n,
            forall|k: int| 0 <= k < n && turn_distance(s as int, k, n as int) < step ==> !#[trigger] pending@[k],
        decreases n - step,
    {
        let k = if step < n - s { s + step } else { step - (n - s) };
        assert(turn_distance(s as int, k as int, n as int) == step);
        if pending[k] {
            assert forall|j: int| 0 <= j < n && #[trigger] pending@[j] implies turn_distance(s as int, k as int, n as int)
                <= turn_distance(s as int, j, n as int) by {
                if turn_distance(s as int, j, n as int) < step {
                    assert(!pending@[j]);
                }
            }
            assert(first_in_turn(pending@, s as int, k as int));
            return Some(k);
        }
        step = step + 1;
    }
    None
}

} // verus!
