//! The transaction-pool surface of the administrative API: pool sizes,
//! unconfirmed entries, and pushing a hex-encoded transaction into the
//! pool at a fixed protocol version. The HTTP routing around it is the
//! host's.

use vstd::prelude::*;

use crate::client::RestError;
use crate::msg::{BlockHeader, Transaction};

verus! {

/// Whether a byte is an ASCII hex digit.
pub open spec fn is_hex_digit(b: u8) -> bool {
    (48 <= b <= 57) || (97 <= b <= 102) || (65 <= b <= 70)
}

/// The value of one hex digit.
pub open spec fn hex_val(b: u8) -> int {
    if 48 <= b <= 57 {
        b - 48
    } else if 97 <= b <= 102 {
        b - 87
    } else {
        b - 55
    }
}

/// Whether a byte string is well-formed hex: even length, digits only.
pub open spec fn hex_ok(s: Seq<u8>) -> bool {
    s.len() % 2 == 0 && forall|i: int| 0 <= i < s.len() ==> is_hex_digit(#[trigger] s[i])
}

/// The bytes a well-formed hex string denotes, two digits each.
pub open spec fn hex_decoded(s: Seq<u8>) -> Seq<u8>
    decreases s.len(),
{
    if s.len() < 2 {
        Seq::empty()
    } else {
        seq![(hex_val(s[0]) * 16 + hex_val(s[1])) as u8] + hex_decoded(s.skip(2))
    }
}

/// Whether a byte is an ASCII hex digit.
fn is_hex_digit_byte(b: u8) -> (r: bool)
    ensures
        r == is_hex_digit(b),
{
    (48 <= b && b <= 57) || (97 <= b && b <= 102) || (65 <= b && b <= 70)
}

/// The value of one hex digit.
fn hex_val_byte(b: u8) -> (r: u8)
    requires
        is_hex_digit(b),
    ensures
        r == hex_val(b),
{
    if 48 <= b && b <= 57 {
        b - 48
    } else if 97 <= b && b <= 102 {
        b - 87
    } else {
        b - 55
    }
}

/// Decode a hex byte string. `Some` exactly on well-formed input, with
/// the denoted bytes.
pub fn from_hex(hex: &Vec<u8>) -> (r: Option<Vec<u8>>)
    ensures
        r is Some <==> hex_ok(hex@),
        r is Some ==> r->Some_0@ == hex_decoded(hex@),
{
    let ghost s = hex@;
    if hex.len() % 2 != 0 {
        return None;
    }
    let mut out: Vec<u8> = Vec::new();
    let mut i: usize = 0;
    proof {
        assert(s.skip(0int) =~= s);
    }
    while i < hex.len()
        invariant
            s == hex@,
            s.len() % 2 == 0,
            i % 2 == 0,
            0 <= i <= s.len(),
            forall|j: int| 0 <= j < i ==> is_hex_digit(#[trigger] s[j]),
            out@ + hex_decoded(s.skip(i as int)) == hex_decoded(s),
        decreases s.len() - i,
    {
        let b0 = hex[i];
        let b1 = hex[i + 1];
        if !is_hex_digit_byte(b0) || !is_hex_digit_byte(b1) {
            return None;
        }
        proof {
            assert(s.skip(i as int).len() >= 2);
            assert(s.skip(i as int)[0] == b0);
            assert(s.skip(i as int)[1] == b1);
            assert(s.skip(i as int).skip(2) =~= s.skip(i + 2int));
        }
        let v = hex_val_byte(b0) * 16 + hex_val_byte(b1);
        out.push(v);
        i = i + 2;
        proof {
            assert(out@ + hex_decoded(s.skip(i as int)) =~= hex_decoded(s));
        }
    }
    proof {
        assert(s.skip(s.len() as int) =~= Seq::<u8>::empty());
        assert(out@ =~= hex_decoded(s));
    }
    Some(out)
}

/// One unconfirmed entry of the pool.
#[derive(Debug)]
pub struct PoolEntry {
    pub tx: Transaction,
}

impl Clone for PoolEntry {
    fn clone(&self) -> (r: Self)
        ensures
            r.tx.body@ == self.tx.body@,
            r.tx.base_fee == self.tx.base_fee,
    {
        PoolEntry { tx: self.tx.clone() }
    }
}

/// The transaction pool as its insertion contract sees it: the confirmed
/// relay pool, the stem pool of the privacy-preserving phase, and the
/// chain head insertion is judged against.
#[derive(Debug)]
pub struct TransactionPool {
    pub txpool: Vec<PoolEntry>,
    pub stempool: Vec<PoolEntry>,
    pub chain_head: Option<BlockHeader>,
}

impl TransactionPool {
    pub fn new(chain_head: Option<BlockHeader>) -> (p: TransactionPool)
        ensures
            p.txpool@.len() == 0,
            p.stempool@.len() == 0,
            p.chain_head == chain_head,
    {
        TransactionPool { txpool: Vec::new(), stempool: Vec::new(), chain_head }
    }

    /// Entries across both pools.
    pub fn total_size(&self) -> (r: usize)
        requires
            self.txpool@.len() + self.stempool@.len() <= usize::MAX,
        ensures
            r == self.txpool@.len() + self.stempool@.len(),
    {
        self.txpool.len() + self.stempool.len()
    }

    /// Insert a transaction: a stem insertion goes to the stem pool, any
    /// other to the relay pool.
    pub fn add_to_pool(&mut self, tx: Transaction, stem: bool, _header: &BlockHeader)
        ensures
            stem ==> final(self).stempool@.len() == old(self).stempool@.len() + 1 && final(self).stempool@.last().tx.body@ == tx.body@ && final(self).txpool@ == old(self).txpool@,
            !stem ==> final(self).txpool@.len() == old(self).txpool@.len() + 1 && final(self).txpool@.last().tx.body@ == tx.body@ && final(self).stempool@ == old(self).stempool@,
            final(self).chain_head == old(self).chain_head,
            stem ==> forall|i: int|
                0 <= i < old(self).stempool@.len() ==> final(self).stempool@[i] == old(self).stempool@[i],
            !stem ==> forall|i: int|
                0 <= i < old(self).txpool@.len() ==> final(self).txpool@[i] == old(self).txpool@[i],
    {
        if stem {
            self.stempool.push(PoolEntry { tx });
        } else {
            self.txpool.push(PoolEntry { tx });
        }
    }
}

/// Read access to pool figures over a pool that may already be gone.
#[derive(Debug)]
pub struct PoolHandler {
    pub tx_pool: Option<TransactionPool>,
}

impl PoolHandler {
    /// Entries across both pools; an absent pool is an internal error.
    pub fn get_pool_size(&self) -> (r: Result<usize, RestError>)
        requires
            self.tx_pool matches Some(p) ==> p.txpool@.len() + p.stempool@.len() <= usize::MAX,
        ensures
            match self.tx_pool {
                Some(p) => r matches Ok(n) && n == p.txpool@.len() + p.stempool@.len(),
                None => (r matches Err(e) && e is Internal),
            },
    {
        match &self.tx_pool {
            Some(p) => Ok(p.total_size()),
            None => Err(RestError::Internal { msg: String::new() }),
        }
    }

    /// Entries of the stem pool alone.
    pub fn get_stempool_size(&self) -> (r: Result<usize, RestError>)
        ensures
            match self.tx_pool {
                Some(p) => r matches Ok(n) && n == p.stempool@.len(),
                None => (r matches Err(e) && e is Internal),
            },
    {
        match &self.tx_pool {
            Some(p) => Ok(p.stempool.len()),
            None => Err(RestError::Internal { msg: String::new() }),
        }
    }

    /// The unconfirmed relay-pool entries, in insertion order.
    pub fn get_unconfirmed_transactions(&self) -> (r: Result<Vec<PoolEntry>, RestError>)
        ensures
            match self.tx_pool {
                Some(p) => r matches Ok(v) && v@.len() == p.txpool@.len() && (forall|i: int|
                    0 <= i < v@.len() ==> v@[i].tx.body@ == p.txpool@[i].tx.body@),
                None => (r matches Err(e) && e is Internal),
            },
    {
        match &self.tx_pool {
            Some(p) => {
                let mut v: Vec<PoolEntry> = Vec::new();
                let mut i: usize = 0;
                while i < p.txpool.len()
                    invariant
                        0 <= i <= p.txpool@.len(),
                        v@.len() == i,
                        forall|j: int| 0 <= j < i ==> v@[j].tx.body@ == p.txpool@[j].tx.body@,
                    decreases p.txpool@.len() - i,
                {
                    v.push(p.txpool[i].clone());
                    i = i + 1;
                }
                Ok(v)
            },
            None => Err(RestError::Internal { msg: String::new() }),
        }
    }

    /// Push a transaction into the pool: the chain head is resolved and
    /// insertion is stemmed unless fluffing was asked for.
    pub fn push_transaction(&mut self, tx: Transaction, fluff: Option<bool>) -> (r: Result<
        (),
        RestError,
    >)
        ensures
            match old(self).tx_pool {
                Some(p) => match p.chain_head {
                    Some(h) => {
                        let stem = !(fluff matches Some(true));
                        &&& r is Ok
                        &&& final(self).tx_pool matches Some(q)
                        &&& (stem ==> q.stempool@.len() == p.stempool@.len() + 1
                            && q.stempool@.last().tx.body@ == tx.body@ && q.txpool@ == p.txpool@)
                        &&& (!stem ==> q.txpool@.len() == p.txpool@.len() + 1
                            && q.txpool@.last().tx.body@ == tx.body@ && q.stempool@ == p.stempool@)
                    },
                    None => (r matches Err(e) && e is Internal) && *final(self) == *old(self),
                },
                None => (r matches Err(e) && e is Internal) && *final(self) == *old(self),
            },
    {
        let fluffed = match fluff {
            Some(f) => f,
            None => false,
        };
        match &mut self.tx_pool {
            Some(p) => {
                let header = match &p.chain_head {
                    Some(h) => *h,
                    None => {
                        return Err(RestError::Internal { msg: String::new() });
                    },
                };
                p.add_to_pool(tx, !fluffed, &header);
                Ok(())
            },
            None => Err(RestError::Internal { msg: String::new() }),
        }
    }
}

/// Basic information about the pool, for the status surface.
#[derive(Clone, Copy, Debug, PartialEq, Eq, Structural)]
pub struct PoolInfo {
    pub pool_size: usize,
}

/// The read-only pool-status surface.
#[derive(Debug)]
pub struct PoolInfoHandler {
    pub tx_pool: Option<TransactionPool>,
}

impl PoolInfoHandler {
    /// The figure the status page shows.
    pub fn pool_info(&self) -> (r: Result<PoolInfo, RestError>)
        requires
            self.tx_pool matches Some(p) ==> p.txpool@.len() + p.stempool@.len() <= usize::MAX,
        ensures
            match self.tx_pool {
                Some(p) => r matches Ok(info) && info.pool_size == p.txpool@.len()
                    + p.stempool@.len(),
                None => (r matches Err(e) && e is Internal),
            },
    {
        match &self.tx_pool {
            Some(p) => Ok(PoolInfo { pool_size: p.total_size() }),
            None => Err(RestError::Internal { msg: String::new() }),
        }
    }
}

/// The push surface: a hex-encoded transaction arrives over HTTP and
/// enters the pool at a fixed protocol version.
#[derive(Debug)]
pub struct PoolPushHandler {
    pub tx_pool: Option<TransactionPool>,
}

impl PoolPushHandler {
    /// Decode and push one hex-encoded transaction. Malformed hex is a
    /// request error; a missing pool or chain head an internal one;
    /// `fluff` skips the stem phase.
    pub fn update_pool(&mut self, tx_hex: &Vec<u8>, fluff: bool) -> (r: Result<(), RestError>)
        ensures
            match old(self).tx_pool {
                Some(p) => {
                    if !hex_ok(tx_hex@) {
                        (r matches Err(e) && e is RequestError) && *final(self) == *old(self)
                    } else {
                        match p.chain_head {
                            Some(h) => {
                                &&& r is Ok
                                &&& final(self).tx_pool matches Some(q)
                                &&& (!fluff ==> q.stempool@.len() == p.stempool@.len() + 1
                                    && q.stempool@.last().tx.body@ == hex_decoded(tx_hex@)
                                    && q.txpool@ == p.txpool@)
                                &&& (fluff ==> q.txpool@.len() == p.txpool@.len() + 1
                                    && q.txpool@.last().tx.body@ == hex_decoded(tx_hex@)
                                    && q.stempool@ == p.stempool@)
                            },
                            None => (r matches Err(e) && e is Internal) && *final(self) == *old(self),
                        }
                    }
                },
                None => (r matches Err(e) && e is Internal) && *final(self) == *old(self),
            },
    {
        match &mut self.tx_pool {
            Some(p) => {
                let decoded = match from_hex(tx_hex) {
                    Some(d) => d,
                    None => {
                        return Err(RestError::RequestError { msg: String::new() });
                    },
                };
                let header = match &p.chain_head {
                    Some(h) => *h,
                    None => {
                        return Err(RestError::Internal { msg: String::new() });
                    },
                };
                // The wire fee fields are the chain's concern; the pool
                // model carries the raw body.
                let tx = Transaction { body: decoded, base_fee: 0 };
                p.add_to_pool(tx, !fluff, &header);
                Ok(())
            },
            None => Err(RestError::Internal { msg: String::new() }),
        }
    }
}

} // verus!
