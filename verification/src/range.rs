//! The two working sets, one for each family, and the walk over them.

use vstd::prelude::*;
use vstd::string::StringExecFns;
use crate::aggregate::aggregate;
use crate::cover::{all_valid, is_aggregate};
use crate::net::{Family, IpOrNet};
use crate::prefix::{Prefix, blocks};

verus! {

/// The networks of one family that a list of prefixes stands for.
pub open spec fn nets(family: Family, v: Seq<Prefix>) -> Seq<IpOrNet> {
    Seq::new(v.len(), |i: int| IpOrNet { family, addr: v[i].addr, len: v[i].len })
}

/// The lines that a list of networks is written as: each network in CIDR
/// notation, with a line feed behind it.
pub open spec fn lines(s: Seq<IpOrNet>) -> Seq<char>
    decreases s.len(),
{
    if s.len() == 0 {
        Seq::empty()
    } else {
        lines(s.drop_last()) + s.last().text() + seq!['\n']
    }
}

/// Aggregates the IPv4 list and the IPv6 list, each by itself and, where a
/// second thread is free, at the same time.
///
/// Trusted: `rayon::join`. It is taken to call each of the two closures
/// once and to give back what the first returned and what the second
/// returned; each closure is one call of `aggregate`.
#[verifier::external_body]
fn aggregate_both(v4: Vec<Prefix>, v6: Vec<Prefix>) -> (r: (Vec<Prefix>, Vec<Prefix>))
    requires
        all_valid(32, blocks(v4@)),
        all_valid(128, blocks(v6@)),
    ensures
        is_aggregate(32, blocks(r.0@), blocks(v4@)),
        is_aggregate(128, blocks(r.1@), blocks(v6@)),
{
    rayon::join(|| aggregate(32, v4), || aggregate(128, v6))
}

/// The prefixes taken in so far, IPv4 and IPv6 apart. After `simplify`
/// each list is the aggregate of what was taken in.
pub struct IpBothRange {
    pub v4: Vec<Prefix>,
    pub v6: Vec<Prefix>,
}

impl IpBothRange {
    /// Every prefix is canonical in the address space of its family.
    pub open spec fn wf(&self) -> bool {
        all_valid(32, blocks(self.v4@)) && all_valid(128, blocks(self.v6@))
    }

    /// What a walk hands out: the IPv4 networks, then the IPv6 networks.
    pub open spec fn entries(&self) -> Seq<IpOrNet> {
        nets(Family::V4, self.v4@) + nets(Family::V6, self.v6@)
    }

    /// The empty pair of working sets.
    pub fn new() -> (r: IpBothRange)
        ensures
            r.v4@ == Seq::<Prefix>::empty(),
            r.v6@ == Seq::<Prefix>::empty(),
            r.wf(),
    {
        IpBothRange { v4: Vec::new(), v6: Vec::new() }
    }

    /// Takes a network into the working set of its family, in canonical form.
    pub fn add(&mut self, net: IpOrNet)
        requires
            old(self).wf(),
            net.wf(),
        ensures
            final(self).wf(),
            net.family == Family::V4 ==> final(self).v4@ == old(self).v4@.push(net.canonical())
                && final(self).v6@ == old(self).v6@,
            net.family == Family::V6 ==> final(self).v6@ == old(self).v6@.push(net.canonical())
                && final(self).v4@ == old(self).v4@,
    {
        let p = net.prefix();
        match net.family {
            Family::V4 => {
                self.v4.push(p);
                proof {
                    assert(blocks(self.v4@) =~= blocks(old(self).v4@).push(p@));
                }
            },
            Family::V6 => {
                self.v6.push(p);
                proof {
                    assert(blocks(self.v6@) =~= blocks(old(self).v6@).push(p@));
                }
            },
        }
    }

    /// Puts in the place of each working set its aggregate: the ascending
    /// list of prefixes, free of overlap and of siblings, that covers the
    /// same addresses.
    pub fn simplify(&mut self)
        requires
            old(self).wf(),
        ensures
            final(self).wf(),
            is_aggregate(32, blocks(final(self).v4@), blocks(old(self).v4@)),
            is_aggregate(128, blocks(final(self).v6@), blocks(old(self).v6@)),
    {
        let mut v4: Vec<Prefix> = Vec::new();
        let mut v6: Vec<Prefix> = Vec::new();
        core::mem::swap(&mut self.v4, &mut v4);
        core::mem::swap(&mut self.v6, &mut v6);
        let (a4, a6) = aggregate_both(v4, v6);
        self.v4 = a4;
        self.v6 = a6;
    }

    /// The IPv4 prefixes, in the order in which they are held.
    pub fn v4_iter(&self) -> (r: &Vec<Prefix>)
        ensures
            r@ == self.v4@,
    {
        &self.v4
    }

    /// The IPv6 prefixes, in the order in which they are held.
    pub fn v6_iter(&self) -> (r: &Vec<Prefix>)
        ensures
            r@ == self.v6@,
    {
        &self.v6
    }

    /// A walk over the IPv4 networks and then the IPv6 networks.
    pub fn iter(&self) -> (it: IpBothRangeIter<'_>)
        requires
            self.wf(),
        ensures
            it.wf(),
            it.ranges == self,
            it.index() == 0,
    {
        IpBothRangeIter { ranges: self, v4done: false, pos: 0 }
    }

    /// Writes the networks, one on a line: the IPv4 networks, then the
    /// IPv6 networks.
    pub fn to_string(&self) -> (s: String)
        requires
            self.wf(),
        ensures
            s@ == lines(self.entries()),
    {
        let mut out = String::new();
        let mut it = self.iter();
        let ghost all = self.entries();
        proof {
            assert(all.take(0) =~= Seq::<IpOrNet>::empty());
        }
        loop
            invariant
                it.wf(),
                it.ranges == self,
                all == self.entries(),
                0 <= it.index() <= all.len(),
                out@ == lines(all.take(it.index())),
            ensures
                out@ == lines(all),
            decreases all.len() - it.index(),
        {
            let ghost k = it.index();
            match it.next() {
                Some(net) => {
                    let line = net.to_string();
                    out.append(line.as_str());
                    out.append("\n");
                    proof {
                        reveal_strlit("\n");
                        assert("\n"@ =~= seq!['\n']);
                        assert(all.take(k + 1).drop_last() =~= all.take(k));
                        assert(all.take(k + 1).last() == net);
                    }
                },
                None => {
                    proof {
                        assert(all.take(k) =~= all);
                    }
                    break ;
                },
            }
        }
        out
    }
}

impl Default for IpBothRange {
    /// The empty pair of working sets.
    fn default() -> (r: IpBothRange)
        ensures
            r.v4@ == Seq::<Prefix>::empty(),
            r.v6@ == Seq::<Prefix>::empty(),
            r.wf(),
    {
        IpBothRange::new()
    }
}

/// A walk over the networks of an `IpBothRange`.
pub struct IpBothRangeIter<'a> {
    pub ranges: &'a IpBothRange,
    pub v4done: bool,
    pub pos: usize,
}

impl<'a> IpBothRangeIter<'a> {
    /// The position is inside the list that the walk is in.
    pub open spec fn wf(&self) -> bool {
        &&& self.ranges.wf()
        &&& !self.v4done ==> self.pos <= self.ranges.v4@.len()
        &&& self.v4done ==> self.pos <= self.ranges.v6@.len()
    }

    /// How many networks the walk has handed out.
    pub open spec fn index(&self) -> int {
        if self.v4done {
            self.ranges.v4@.len() + self.pos
        } else {
            self.pos as int
        }
    }

    /// Hands out the next network, or `None` when the walk is over.
    pub fn next(&mut self) -> (r: Option<IpOrNet>)
        requires
            old(self).wf(),
        ensures
            final(self).wf(),
            final(self).ranges == old(self).ranges,
            old(self).index() < old(self).ranges.entries().len() ==> r == Some(
                old(self).ranges.entries()[old(self).index()],
            ) && final(self).index() == old(self).index() + 1 && r->Some_0.wf(),
            old(self).index() >= old(self).ranges.entries().len() ==> r is None && final(self).index()
                == old(self).index(),
    {
        if !self.v4done {
            if self.pos < self.ranges.v4.len() {
                let p = self.ranges.v4[self.pos];
                assert(blocks(self.ranges.v4@)[self.pos as int].valid(32));
                self.pos += 1;
                return Some(IpOrNet::from_prefix(Family::V4, p));
            }
            self.v4done = true;
            self.pos = 0;
        }
        if self.pos < self.ranges.v6.len() {
            let p = self.ranges.v6[self.pos];
            assert(blocks(self.ranges.v6@)[self.pos as int].valid(128));
            self.pos += 1;
            Some(IpOrNet::from_prefix(Family::V6, p))
        } else {
            None
        }
    }
}

} // verus!
