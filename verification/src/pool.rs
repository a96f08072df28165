//! The upstream pool: an SNI name and a frozen, non-empty list of backend
//! addresses, selected in strict round-robin order by a cursor that wraps
//! modulo the pool size. A pool is never mutated in place after
//! construction apart from its cursor; endpoint changes replace the whole
//! pool.

use vstd::arithmetic::div_mod::{
    lemma_add_mod_noop, lemma_add_mod_noop_right, lemma_mod_bound, lemma_mod_equivalence,
    lemma_mod_self_0, lemma_small_mod,
};
use vstd::arithmetic::mul::lemma_mul_is_distributive_add_other_way;
use vstd::prelude::*;
use vstd::string::StringExecFns;

use crate::addr::is_valid_backend;

verus! {

/// Why a pool could not be built.
#[derive(Debug, Clone, Copy, PartialEq, Eq, Structural)]
pub enum PoolError {
    /// The address list was empty.
    EmptyPool,
    /// An address did not fit the backend-address grammar.
    AddressParse,
}

/// The mathematical value of a pool.
pub struct PoolModel {
    pub sni: Seq<char>,
    pub backends: Seq<Seq<char>>,
    pub cursor: int,
}

impl PoolModel {
    /// A well-formed pool: non-empty, cursor in range, every backend a
    /// valid address.
    pub open spec fn wf(self) -> bool {
        &&& self.backends.len() > 0
        &&& 0 <= self.cursor < self.backends.len()
        &&& forall|i: int| 0 <= i < self.backends.len() ==> is_valid_backend(#[trigger] self.backends[i])
    }
}

/// Whether an address list can become a pool.
pub open spec fn valid_backends(backends: Seq<Seq<char>>) -> bool {
    &&& backends.len() > 0
    &&& forall|i: int| 0 <= i < backends.len() ==> is_valid_backend(#[trigger] backends[i])
}

/// The pool a fresh build yields: cursor at the front.
pub open spec fn new_pool(sni: Seq<char>, backends: Seq<Seq<char>>) -> PoolModel {
    PoolModel { sni, backends, cursor: 0 }
}

/// A round-robin upstream pool.
#[derive(Clone)]
pub struct RoundRobinLoadBalancer {
    sni: String,
    backends: Vec<String>,
    cursor: usize,
}

impl View for RoundRobinLoadBalancer {
    type V = PoolModel;

    closed spec fn view(&self) -> PoolModel {
        PoolModel { sni: self.sni@, backends: self.backends.deep_view(), cursor: self.cursor as int }
    }
}

impl RoundRobinLoadBalancer {
    /// Builds a pool over `addresses`, or reports why it cannot: an empty
    /// list yields `EmptyPool`, a malformed address yields `AddressParse`.
    pub fn try_from_iter(sni: &str, addresses: Vec<String>) -> (r: Result<Self, PoolError>)
        ensures
            r matches Ok(p) ==> p@ == new_pool(sni@, addresses.deep_view()) && p@.wf(),
            r is Ok <==> valid_backends(addresses.deep_view()),
            r matches Err(e) && e == PoolError::EmptyPool <==> addresses.deep_view().len() == 0,
            r matches Err(e) && e == PoolError::AddressParse <==> addresses.deep_view().len() > 0
                && !valid_backends(addresses.deep_view()),
    {
        if addresses.len() == 0 {
            return Err(PoolError::EmptyPool);
        }
        let mut i: usize = 0;
        while i < addresses.len()
            invariant
                0 <= i <= addresses.len(),
                forall|k: int| 0 <= k < i ==> is_valid_backend(#[trigger] addresses.deep_view()[k]),
            decreases addresses.len() - i,
        {
            if !crate::addr::check_backend_addr(addresses[i].as_str()) {
                assert(!is_valid_backend(addresses.deep_view()[i as int]));
                return Err(PoolError::AddressParse);
            }
            assert(is_valid_backend(addresses.deep_view()[i as int]));
            i = i + 1;
        }
        let pool = RoundRobinLoadBalancer { sni: String::from_str(sni), backends: addresses, cursor: 0 };
        Ok(pool)
    }

    /// Returns the backend at the cursor and advances the cursor by one,
    /// wrapping modulo the pool size.
    pub fn select(&mut self) -> (b: String)
        requires
            old(self)@.wf(),
        ensures
            b@ == old(self)@.backends[old(self)@.cursor],
            final(self)@ == pool_after_select(old(self)@),
            final(self)@.wf(),
    {
        assert(self.cursor < self.backends.len());
        let b = self.backends[self.cursor].clone();
        if self.cursor + 1 == self.backends.len() {
            self.cursor = 0;
        } else {
            self.cursor = self.cursor + 1;
        }
        proof {
            let n = old(self)@.backends.len() as int;
            if old(self)@.cursor + 1 == n {
                lemma_mod_self_0(n);
            } else {
                lemma_small_mod((old(self)@.cursor + 1) as nat, n as nat);
            }
        }
        b
    }

    /// The pool's SNI name.
    pub fn get_sni(&self) -> (s: String)
        ensures
            s@ == self@.sni,
    {
        self.sni.clone()
    }

    /// The pool's backend addresses, in order.
    pub fn get_ip_addresses(self) -> (v: Vec<String>)
        ensures
            v.deep_view() == self@.backends,
    {
        self.backends
    }
}

/// The pool state after one selection: the cursor steps forward modulo the
/// pool size.
pub open spec fn pool_after_select(p: PoolModel) -> PoolModel {
    PoolModel { cursor: (p.cursor + 1) % (p.backends.len() as int), ..p }
}

/// The pool state after `j` selections.
pub open spec fn pool_after_selects(p: PoolModel, j: nat) -> PoolModel
    decreases j,
{
    if j == 0 {
        p
    } else {
        pool_after_select(pool_after_selects(p, (j - 1) as nat))
    }
}

/// The backend index the `j`-th selection returns (counting from zero),
/// starting from pool state `p`.
pub open spec fn selection_at(p: PoolModel, j: nat) -> int {
    (p.cursor + j) % (p.backends.len() as int)
}

/// How many of the first `len` selections starting at cursor `c` over `n`
/// backends return backend `i`.
pub open spec fn hits(c: int, n: int, len: nat, i: int) -> nat
    decreases len,
{
    if len == 0 {
        0nat
    } else {
        hits(c, n, (len - 1) as nat, i) + if (c + (len - 1)) % n == i {
            1nat
        } else {
            0nat
        }
    }
}

/// How many of the first `len` selections starting from pool state `p`
/// return backend index `i`.
pub open spec fn times_selected(p: PoolModel, len: nat, i: int) -> nat {
    hits(p.cursor, p.backends.len() as int, len, i)
}

/// The `j`-th selection is made from the pool state after `j` selections.
pub proof fn lemma_selection_at_is_cursor(p: PoolModel, j: nat)
    requires
        p.wf(),
    ensures
        pool_after_selects(p, j).cursor == selection_at(p, j),
        pool_after_selects(p, j).backends == p.backends,
        pool_after_selects(p, j).sni == p.sni,
    decreases j,
{
    let n = p.backends.len() as int;
    if j == 0 {
        lemma_small_mod(p.cursor as nat, n as nat);
    } else {
        lemma_selection_at_is_cursor(p, (j - 1) as nat);
        lemma_add_mod_noop(p.cursor + (j - 1), 1, n);
        if n > 1 {
            lemma_small_mod(1nat, n as nat);
        } else {
            lemma_mod_self_0(n);
            lemma_mod_bound(p.cursor + (j - 1), n);
            lemma_mod_bound(p.cursor + j, n);
        }
    }
}

/// Counting over a split range: the first `a` selections and the `b` that
/// follow them.
proof fn lemma_hits_split(c: int, n: int, a: nat, b: nat, i: int)
    ensures
        hits(c, n, a + b, i) == hits(c, n, a, i) + hits(c + a, n, b, i),
    decreases b,
{
    if b > 0 {
        lemma_hits_split(c, n, a, (b - 1) as nat, i);
        assert(c + (a + b - 1) == (c + a) + (b - 1));
    }
}

/// Over one full cycle of `n` selections, backend `i` is returned exactly
/// once, wherever the cursor starts.
proof fn lemma_hits_cycle(c: int, n: int, i: int)
    requires
        n > 0,
        0 <= i < n,
    ensures
        hits(c, n, n as nat, i) == 1,
{
    let j0 = (i - c) % n;
    lemma_mod_bound(i - c, n);
    lemma_hits_window(c, n, n as nat, i);
    assert(j0 < n);
}

/// Over the first `len <= n` selections, backend `i` is returned once if
/// its slot `(i - c) % n` falls inside the window, and never otherwise.
proof fn lemma_hits_window(c: int, n: int, len: nat, i: int)
    requires
        n > 0,
        0 <= i < n,
        len <= n,
    ensures
        hits(c, n, len, i) == if (i - c) % n < len {
            1nat
        } else {
            0nat
        },
    decreases len,
{
    let j0 = (i - c) % n;
    lemma_mod_bound(i - c, n);
    if len > 0 {
        lemma_hits_window(c, n, (len - 1) as nat, i);
        let j = len - 1;
        lemma_mod_equivalence(c + j, i, n);
        lemma_small_mod(i as nat, n as nat);
        if (c + j) % n == i {
            assert(((c + j) - i) % n == 0);
            lemma_mod_equivalence(j, i - c, n);
            assert((j - (i - c)) % n == 0);
            lemma_small_mod(j as nat, n as nat);
            lemma_mod_equivalence(j, j0, n);
            assert(j == j0);
        } else {
            if j == j0 {
                lemma_add_mod_noop_right(c, i - c, n);
                assert((c + j) % n == i % n);
            }
            assert(j != j0);
        }
    }
}

/// Selection fairness: over `k * n` consecutive selections on a pool of
/// `n` backends, each backend is returned exactly `k` times, from any
/// starting cursor.
pub proof fn lemma_selection_fairness(p: PoolModel, k: nat, i: int)
    requires
        p.wf(),
        0 <= i < p.backends.len(),
    ensures
        times_selected(p, k * p.backends.len(), i) == k,
    decreases k,
{
    let n = p.backends.len() as int;
    if k == 0 {
        assert(0nat * p.backends.len() == 0nat);
    } else {
        lemma_selection_fairness(p, (k - 1) as nat, i);
        lemma_mul_is_distributive_add_other_way(p.backends.len() as int, k as int - 1, 1);
        assert(k * p.backends.len() == (k - 1) as nat * p.backends.len() + p.backends.len());
        lemma_hits_split(p.cursor, n, ((k - 1) as nat * p.backends.len()) as nat, p.backends.len() as nat, i);
        lemma_hits_cycle(p.cursor + (k - 1) as nat * p.backends.len(), n, i);
    }
}

} // verus!
