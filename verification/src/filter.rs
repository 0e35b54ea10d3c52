//! From tokens to working sets: which networks are let in, and what is
//! said of the tokens that are not.

use vstd::prelude::*;
use vstd::string::StringExecFns;
use crate::error::NetParseError;
use crate::net::{Family, IpOrNet};
use crate::parse::token_of;
use crate::cover::{covered, is_aggregate, same_cover, lemma_covering_block};
use crate::laws::{lemma_blocks_injective, lemma_minimal_unique};
use crate::prefix::{Prefix, blocks};
use crate::prefixlen::PrefixlenPair;
use crate::range::IpBothRange;
use crate::text::{ascii_words, texts, words};

verus! {

/// The settings of a run.
#[derive(Clone, Copy, Debug)]
pub struct Args {
    /// The largest prefix length let in, for each family.
    pub max_prefixlen: PrefixlenPair,
    /// Clear the bits beyond the prefix length, in place of turning the
    /// network down.
    pub truncate: bool,
    /// Let in IPv4 networks alone.
    pub only_v4: bool,
    /// Let in IPv6 networks alone.
    pub only_v6: bool,
}

impl Default for Args {
    /// Strict on host bits, both families, every prefix length.
    fn default() -> (r: Args)
        ensures
            r.max_prefixlen.v4 == 32,
            r.max_prefixlen.v6 == 128,
            !r.truncate,
            !r.only_v4,
            !r.only_v6,
    {
        Args { max_prefixlen: PrefixlenPair { v4: 32, v6: 128 }, truncate: false, only_v4: false, only_v6: false }
    }
}

/// What becomes of a network that was read.
#[derive(Clone, Copy, Debug, PartialEq, Eq, Structural)]
pub enum Verdict {
    /// Taken into the working set of its family.
    Added,
    /// Turned down with a diagnostic: bits beyond the prefix length are
    /// set, and the settings do not ask to clear them.
    HostBitsSet,
    /// Left out without a word: the settings ask for the other family alone.
    OtherFamily,
    /// Left out without a word: the prefix is longer than the limit for
    /// its family.
    TooLong,
}

impl Args {
    /// What becomes of a network under these settings. Host bits are looked
    /// at first, whatever the family; then the family; then the length.
    pub open spec fn verdict_of(&self, net: IpOrNet) -> Verdict {
        if !self.truncate && net.addr != net.network_value() {
            Verdict::HostBitsSet
        } else if self.only_v4 && net.family == Family::V6 {
            Verdict::OtherFamily
        } else if self.only_v6 && net.family == Family::V4 {
            Verdict::OtherFamily
        } else if self.max_prefixlen.limit(net.family) >= net.len {
            Verdict::Added
        } else {
            Verdict::TooLong
        }
    }

    /// What becomes of a network under these settings.
    pub fn verdict(&self, net: &IpOrNet) -> (v: Verdict)
        requires
            net.wf(),
        ensures
            v == self.verdict_of(*net),
    {
        if !self.truncate && net.has_host_bits() {
            return Verdict::HostBitsSet;
        }
        if self.only_v4 && net.is_ipv6() {
            return Verdict::OtherFamily;
        }
        if self.only_v6 && net.is_ipv4() {
            return Verdict::OtherFamily;
        }
        if self.max_prefixlen >= *net {
            Verdict::Added
        } else {
            Verdict::TooLong
        }
    }
}

/// Why a token was turned down.
#[derive(Clone, Copy, Debug, PartialEq, Eq, Structural)]
pub enum Reason {
    /// The token is no address and no network.
    Malformed(NetParseError),
    /// The token is the given network, with bits set beyond its prefix length.
    HostBits(IpOrNet),
}

/// A token that was turned down, and why.
#[derive(Clone, Debug)]
pub struct Rejected {
    pub token: String,
    pub reason: Reason,
}

/// A token that was turned down, as its characters, and why.
pub struct RejectedToken {
    pub token: Seq<char>,
    pub reason: Reason,
}

impl View for Rejected {
    type V = RejectedToken;

    open spec fn view(&self) -> RejectedToken {
        RejectedToken { token: self.token@, reason: self.reason }
    }
}

/// The tokens turned down, of a list of such.
pub open spec fn rejected_tokens(v: Seq<Rejected>) -> Seq<RejectedToken> {
    Seq::new(v.len(), |i: int| v[i]@)
}

impl Args {
    /// The network that a token adds to the working set of its family, if
    /// it adds one.
    pub open spec fn admitted(&self, token: Seq<char>) -> Option<IpOrNet> {
        match token_of(token) {
            Ok(net) => if self.verdict_of(net) == Verdict::Added {
                Some(net)
            } else {
                None
            },
            Err(_) => None,
        }
    }

    /// Why a token is turned down, if it is.
    pub open spec fn refusal(&self, token: Seq<char>) -> Option<Reason> {
        match token_of(token) {
            Ok(net) => if self.verdict_of(net) == Verdict::HostBitsSet {
                Some(Reason::HostBits(net))
            } else {
                None
            },
            Err(e) => Some(Reason::Malformed(e)),
        }
    }

    /// The token adds the prefix `p` to the working set of the family.
    pub open spec fn adds(&self, family: Family, token: Seq<char>, p: Prefix) -> bool {
        self.admitted(token) matches Some(net) && net.family == family && net.canonical() == p
    }

    /// The prefixes that a list of tokens adds to the working set of a
    /// family, in the order of the tokens.
    pub open spec fn accepted(&self, family: Family, tokens: Seq<Seq<char>>) -> Seq<Prefix>
        decreases tokens.len(),
    {
        if tokens.len() == 0 {
            Seq::empty()
        } else {
            let before = self.accepted(family, tokens.drop_last());
            match self.admitted(tokens.last()) {
                Some(net) => if net.family == family {
                    before.push(net.canonical())
                } else {
                    before
                },
                None => before,
            }
        }
    }

    /// The tokens of a list that are turned down, in the order of the
    /// list, each with its reason.
    pub open spec fn refused(&self, tokens: Seq<Seq<char>>) -> Seq<RejectedToken>
        decreases tokens.len(),
    {
        if tokens.len() == 0 {
            Seq::empty()
        } else {
            let before = self.refused(tokens.drop_last());
            match self.refusal(tokens.last()) {
                Some(reason) => before.push(RejectedToken { token: tokens.last(), reason }),
                None => before,
            }
        }
    }
}

/// With IPv4 alone asked for, no token adds to the IPv6 working set; with
/// IPv6 alone asked for, none adds to the IPv4 working set.
pub proof fn law_one_family_alone(args: Args, tokens: Seq<Seq<char>>)
    ensures
        args.only_v4 ==> args.accepted(Family::V6, tokens) == Seq::<Prefix>::empty(),
        args.only_v6 ==> args.accepted(Family::V4, tokens) == Seq::<Prefix>::empty(),
    decreases tokens.len(),
{
    if tokens.len() > 0 {
        law_one_family_alone(args, tokens.drop_last());
    }
}

/// Every prefix that tokens add is within the limit for its family.
pub proof fn law_accepted_within_limit(args: Args, family: Family, tokens: Seq<Seq<char>>, i: int)
    requires
        0 <= i < args.accepted(family, tokens).len(),
    ensures
        args.accepted(family, tokens)[i].len <= args.max_prefixlen.limit(family),
    decreases tokens.len(),
{
    if tokens.len() > 0 {
        let before = args.accepted(family, tokens.drop_last());
        if i < before.len() {
            law_accepted_within_limit(args, family, tokens.drop_last(), i);
        }
    }
}

/// A prefix is among those that tokens add exactly where one of the tokens
/// adds it.
pub proof fn lemma_accepted_members(args: Args, family: Family, tokens: Seq<Seq<char>>, p: Prefix)
    ensures
        args.accepted(family, tokens).contains(p) <==> exists|k: int|
            0 <= k < tokens.len() && args.adds(family, #[trigger] tokens[k], p),
    decreases tokens.len(),
{
    let all = args.accepted(family, tokens);
    if tokens.len() > 0 {
        let rest = tokens.drop_last();
        let before = args.accepted(family, rest);
        lemma_accepted_members(args, family, rest, p);
        if all.contains(p) {
            let i = choose|i: int| 0 <= i < all.len() && all[i] == p;
            if i < before.len() {
                assert(before[i] == p);
                assert(before.contains(p));
                let k = choose|k: int| 0 <= k < rest.len() && args.adds(family, #[trigger] rest[k], p);
                assert(args.adds(family, tokens[k], p));
            } else {
                assert(args.adds(family, tokens[tokens.len() - 1], p));
            }
        }
        if exists|k: int| 0 <= k < tokens.len() && args.adds(family, #[trigger] tokens[k], p) {
            let k = choose|k: int| 0 <= k < tokens.len() && args.adds(family, #[trigger] tokens[k], p);
            if k < rest.len() {
                assert(args.adds(family, rest[k], p));
                let i = choose|i: int| 0 <= i < before.len() && before[i] == p;
                assert(all[i] == p);
            } else {
                assert(all[all.len() - 1] == p);
            }
        }
    }
}

/// Two lists with the same tokens, in whatever order and however often,
/// add prefixes that cover the same addresses.
pub proof fn lemma_same_tokens_same_cover(
    args: Args,
    family: Family,
    left: Seq<Seq<char>>,
    right: Seq<Seq<char>>,
)
    requires
        forall|t: Seq<char>| left.contains(t) <==> right.contains(t),
    ensures
        same_cover(
            family.width(),
            blocks(args.accepted(family, left)),
            blocks(args.accepted(family, right)),
        ),
{
    let w = family.width();
    let a = args.accepted(family, left);
    let b = args.accepted(family, right);
    assert forall|x: int| covered(w, blocks(a), x) == covered(w, blocks(b), x) by {
        if covered(w, blocks(a), x) {
            let i = lemma_covering_block(w, blocks(a), x);
            lemma_moved(args, family, left, right, a[i]);
            let j = choose|j: int| 0 <= j < b.len() && b[j] == a[i];
            assert(blocks(b)[j].has(w, x));
        }
        if covered(w, blocks(b), x) {
            let i = lemma_covering_block(w, blocks(b), x);
            lemma_moved(args, family, right, left, b[i]);
            let j = choose|j: int| 0 <= j < a.len() && a[j] == b[i];
            assert(blocks(a)[j].has(w, x));
        }
    }
}

/// A prefix that the tokens of one list add is added by every list that
/// holds those tokens.
proof fn lemma_moved(args: Args, family: Family, from: Seq<Seq<char>>, to: Seq<Seq<char>>, p: Prefix)
    requires
        forall|t: Seq<char>| from.contains(t) ==> to.contains(t),
        args.accepted(family, from).contains(p),
    ensures
        args.accepted(family, to).contains(p),
{
    lemma_accepted_members(args, family, from, p);
    lemma_accepted_members(args, family, to, p);
    let k = choose|k: int| 0 <= k < from.len() && args.adds(family, #[trigger] from[k], p);
    assert(from.contains(from[k]));
    let m = choose|m: int| 0 <= m < to.len() && to[m] == from[k];
    assert(args.adds(family, to[m], p));
}

/// The output does not depend on the order of the tokens: two lists with
/// the same tokens lead to the same aggregate, entry for entry.
pub proof fn law_token_order_blind(
    args: Args,
    family: Family,
    left: Seq<Seq<char>>,
    right: Seq<Seq<char>>,
    left_out: Seq<Prefix>,
    right_out: Seq<Prefix>,
)
    requires
        forall|t: Seq<char>| left.contains(t) <==> right.contains(t),
        is_aggregate(family.width(), blocks(left_out), blocks(args.accepted(family, left))),
        is_aggregate(family.width(), blocks(right_out), blocks(args.accepted(family, right))),
    ensures
        left_out == right_out,
{
    lemma_same_tokens_same_cover(args, family, left, right);
    lemma_minimal_unique(family.width(), blocks(left_out), blocks(right_out));
    lemma_blocks_injective(left_out, right_out);
}

/// A run: its settings and the working sets that it fills.
pub struct App {
    pub args: Args,
    pub prefixes: IpBothRange,
}

impl App {
    /// A run with the given settings and empty working sets.
    pub fn new(args: Args) -> (app: App)
        ensures
            app.args == args,
            app.prefixes.v4@ == Seq::<Prefix>::empty(),
            app.prefixes.v6@ == Seq::<Prefix>::empty(),
            app.prefixes.wf(),
    {
        App { args, prefixes: IpBothRange::new() }
    }

    /// Takes a network in, if the settings let it in, and says what
    /// became of it.
    pub fn add_prefix(&mut self, pfx: IpOrNet) -> (v: Verdict)
        requires
            old(self).prefixes.wf(),
            pfx.wf(),
        ensures
            v == old(self).args.verdict_of(pfx),
            final(self).args == old(self).args,
            final(self).prefixes.wf(),
            final(self).prefixes.v4@ == if v == Verdict::Added && pfx.family == Family::V4 {
                old(self).prefixes.v4@.push(pfx.canonical())
            } else {
                old(self).prefixes.v4@
            },
            final(self).prefixes.v6@ == if v == Verdict::Added && pfx.family == Family::V6 {
                old(self).prefixes.v6@.push(pfx.canonical())
            } else {
                old(self).prefixes.v6@
            },
    {
        let v = self.args.verdict(&pfx);
        match v {
            Verdict::Added => {
                self.prefixes.add(pfx);
            },
            _ => {},
        }
        v
    }

    /// Reads a token and takes its network in, if it is one and the
    /// settings let it in. Gives the reason where the token is turned down.
    pub fn consume_token(&mut self, token: &str) -> (r: Option<Reason>)
        requires
            old(self).prefixes.wf(),
        ensures
            r == old(self).args.refusal(token@),
            r matches Some(Reason::HostBits(net)) ==> net.wf(),
            final(self).args == old(self).args,
            final(self).prefixes.wf(),
            final(self).prefixes.v4@ == old(self).prefixes.v4@ + old(self).args.accepted(
                Family::V4,
                seq![token@],
            ),
            final(self).prefixes.v6@ == old(self).prefixes.v6@ + old(self).args.accepted(
                Family::V6,
                seq![token@],
            ),
    {
        proof {
            let one = seq![token@];
            assert(one.drop_last() =~= Seq::<Seq<char>>::empty());
            assert(one.last() == token@);
            assert(self.args.accepted(Family::V4, one.drop_last()) =~= Seq::<Prefix>::empty());
            assert(self.args.accepted(Family::V6, one.drop_last()) =~= Seq::<Prefix>::empty());
        }
        match IpOrNet::from_str(token) {
            Ok(net) => {
                let v = self.add_prefix(net);
                proof {
                    assert(self.prefixes.v4@ =~= old(self).prefixes.v4@ + old(self).args.accepted(
                        Family::V4,
                        seq![token@],
                    ));
                    assert(self.prefixes.v6@ =~= old(self).prefixes.v6@ + old(self).args.accepted(
                        Family::V6,
                        seq![token@],
                    ));
                }
                match v {
                    Verdict::HostBitsSet => Some(Reason::HostBits(net)),
                    _ => None,
                }
            },
            Err(e) => {
                proof {
                    assert(self.prefixes.v4@ =~= old(self).prefixes.v4@ + old(self).args.accepted(
                        Family::V4,
                        seq![token@],
                    ));
                    assert(self.prefixes.v6@ =~= old(self).prefixes.v6@ + old(self).args.accepted(
                        Family::V6,
                        seq![token@],
                    ));
                }
                Some(Reason::Malformed(e))
            },
        }
    }

    /// Reads the tokens of a line one by one. Each that is a network and is
    /// let in goes to the working set of its family; each that is turned
    /// down is handed back with its reason, and the rest of the line is
    /// read all the same.
    pub fn consume_line(&mut self, line: &str) -> (out: Vec<Rejected>)
        requires
            old(self).prefixes.wf(),
        ensures
            final(self).args == old(self).args,
            final(self).prefixes.wf(),
            final(self).prefixes.v4@ == old(self).prefixes.v4@ + old(self).args.accepted(
                Family::V4,
                words(line@),
            ),
            final(self).prefixes.v6@ == old(self).prefixes.v6@ + old(self).args.accepted(
                Family::V6,
                words(line@),
            ),
            rejected_tokens(out@) == old(self).args.refused(words(line@)),
            forall|k: int|
                0 <= k < out@.len() ==> ((#[trigger] out@[k]).reason matches Reason::HostBits(net)
                    ==> net.wf()),
    {
        let tokens = ascii_words(line);
        let ghost all = words(line@);
        let ghost args = self.args;
        let mut out: Vec<Rejected> = Vec::new();
        let mut i: usize = 0;
        proof {
            assert(all.take(0) =~= Seq::<Seq<char>>::empty());
            assert(self.prefixes.v4@ =~= old(self).prefixes.v4@ + args.accepted(Family::V4, all.take(0)));
            assert(self.prefixes.v6@ =~= old(self).prefixes.v6@ + args.accepted(Family::V6, all.take(0)));
            assert(rejected_tokens(out@) =~= args.refused(all.take(0)));
        }
        while i < tokens.len()
            invariant
                i <= tokens.len(),
                all == texts(tokens@),
                self.args == args,
                self.prefixes.wf(),
                self.prefixes.v4@ == old(self).prefixes.v4@ + args.accepted(Family::V4, all.take(i as int)),
                self.prefixes.v6@ == old(self).prefixes.v6@ + args.accepted(Family::V6, all.take(i as int)),
                rejected_tokens(out@) == args.refused(all.take(i as int)),
                forall|k: int|
                    0 <= k < out@.len() ==> ((#[trigger] out@[k]).reason matches Reason::HostBits(net)
                        ==> net.wf()),
            decreases tokens.len() - i,
        {
            let token = tokens[i];
            let ghost before_v4 = self.prefixes.v4@;
            let ghost before_v6 = self.prefixes.v6@;
            let ghost before_out = out@;
            let refusal = self.consume_token(token);
            proof {
                let upto = all.take(i + 1);
                assert(all[i as int] == token@);
                assert(upto.drop_last() =~= all.take(i as int));
                assert(upto.last() == token@);
                let one = seq![token@];
                assert(one.drop_last() =~= Seq::<Seq<char>>::empty());
                assert(one.last() == token@);
                assert(args.accepted(Family::V4, one.drop_last()) =~= Seq::<Prefix>::empty());
                assert(args.accepted(Family::V6, one.drop_last()) =~= Seq::<Prefix>::empty());
                assert(self.prefixes.v4@ =~= old(self).prefixes.v4@ + args.accepted(Family::V4, upto));
                assert(self.prefixes.v6@ =~= old(self).prefixes.v6@ + args.accepted(Family::V6, upto));
            }
            match refusal {
                Some(reason) => {
                    out.push(Rejected { token: String::from_str(token), reason });
                    proof {
                        assert(rejected_tokens(out@) =~= rejected_tokens(before_out).push(
                            RejectedToken { token: token@, reason },
                        ));
                    }
                },
                None => {},
            }
            i += 1;
        }
        proof {
            assert(all.take(tokens.len() as int) =~= all);
        }
        out
    }

    /// Aggregates the two working sets, each by itself.
    pub fn simplify(&mut self)
        requires
            old(self).prefixes.wf(),
        ensures
            final(self).args == old(self).args,
            final(self).prefixes.wf(),
            is_aggregate(32, blocks(final(self).prefixes.v4@), blocks(old(self).prefixes.v4@)),
            is_aggregate(128, blocks(final(self).prefixes.v6@), blocks(old(self).prefixes.v6@)),
    {
        self.prefixes.simplify();
    }
}

} // verus!
