//! The network manager's decision core: the mutual-consent handshake for
//! LAN peers, punch-target bookkeeping, the mDNS discovery mode, and the
//! grammar of the command channel. The event loop that owns sockets and
//! timers performs the actions this module decides on.

use vstd::prelude::*;
use crate::text::str_eq;
use vstd::string::StrSliceExecFns;
use vstd::string::StringExecFns;

verus! {

/// A peer discovered on the local network.
#[derive(Debug, Clone)]
pub struct LocalPeer {
    pub peer_id: String,
    pub addresses: Vec<String>,
}

/// A pending connection request between two peers.
#[derive(Debug, Clone)]
pub struct ConnectionRequest {
    pub from_peer_id: String,
    pub device_name: Option<String>,
}

/// An address under active dial retries until it connects or expires.
#[derive(Debug, Clone)]
pub struct PunchTarget {
    /// The peer or directory name the target belongs to.
    pub name: String,
    /// The multiaddress dialled every punch tick.
    pub address: String,
    /// Unix seconds when punching began.
    pub started_at: u64,
}

/// How long a punch target lives, in seconds.
pub const PUNCH_HORIZON_SECS: u64 = 30;

/// What the handshake decides to do; the event loop carries it out.
#[derive(Debug, Clone, PartialEq, Eq, Structural)]
pub enum HandshakeEffect {
    /// Keep waiting: we asked first.
    Waiting,
    /// Record the other side's wish and surface it.
    RequestRecorded,
    /// Both sides asked: the peer is connected.
    Completed,
}

/// The manager's handshake ledger: whom we asked, who asked us.
pub struct HandshakeState {
    pub pending_requests: Vec<String>,
    pub incoming_requests: Vec<String>,
}

pub ghost struct HandshakeStateV {
    pub pending_requests: Seq<Seq<char>>,
    pub incoming_requests: Seq<Seq<char>>,
}

impl View for HandshakeState {
    type V = HandshakeStateV;

    open spec fn view(&self) -> HandshakeStateV {
        HandshakeStateV {
            pending_requests: self.pending_requests@.map_values(|s: String| s@),
            incoming_requests: self.incoming_requests@.map_values(|s: String| s@),
        }
    }
}

/// Whether a name is in a list.
pub open spec fn name_listed(names: Seq<Seq<char>>, name: Seq<char>) -> bool {
    exists|i: int| 0 <= i < names.len() && names[i] == name
}

/// A list with every copy of one name removed, order kept.
pub open spec fn name_removed(names: Seq<Seq<char>>, name: Seq<char>) -> Seq<Seq<char>> {
    names.filter(|n: Seq<char>| n != name)
}

/// What pressing "connect" on a peer does: if that peer already asked
/// us, the handshake completes and both ledgers forget the peer; else we
/// note our own wish and wait.
pub open spec fn request_connection_spec(s: HandshakeStateV, peer: Seq<char>) -> (
    HandshakeStateV,
    HandshakeEffect,
) {
    if name_listed(s.incoming_requests, peer) {
        (
            HandshakeStateV {
                pending_requests: name_removed(s.pending_requests, peer),
                incoming_requests: name_removed(s.incoming_requests, peer),
            },
            HandshakeEffect::Completed,
        )
    } else {
        (
            HandshakeStateV {
                pending_requests: s.pending_requests.push(peer),
                incoming_requests: s.incoming_requests,
            },
            HandshakeEffect::Waiting,
        )
    }
}

/// What an incoming connection request does: if we had already asked
/// that peer, the handshake completes; else we record the request.
pub open spec fn incoming_request_spec(s: HandshakeStateV, peer: Seq<char>) -> (
    HandshakeStateV,
    HandshakeEffect,
) {
    if name_listed(s.pending_requests, peer) {
        (
            HandshakeStateV {
                pending_requests: name_removed(s.pending_requests, peer),
                incoming_requests: name_removed(s.incoming_requests, peer),
            },
            HandshakeEffect::Completed,
        )
    } else {
        (
            HandshakeStateV {
                pending_requests: s.pending_requests,
                incoming_requests: s.incoming_requests.push(peer),
            },
            HandshakeEffect::RequestRecorded,
        )
    }
}

/// The mutual handshake: A asks for B while B has not asked yet, so A
/// waits; B's request then arrives at A and completes the handshake on
/// A's side exactly once, leaving no trace of B in A's ledgers. B's side
/// is the mirror image through `request_connection_spec`.
pub proof fn lemma_mutual_handshake(s0: HandshakeStateV, a_peer: Seq<char>)
    requires
        !name_listed(s0.incoming_requests, a_peer),
    ensures
        ({
            let (s1, e1) = request_connection_spec(s0, a_peer);
            let (s2, e2) = incoming_request_spec(s1, a_peer);
            &&& e1 == HandshakeEffect::Waiting
            &&& e2 == HandshakeEffect::Completed
            &&& !name_listed(s2.pending_requests, a_peer)
            &&& !name_listed(s2.incoming_requests, a_peer)
            &&& ({
                let (s3, e3) = incoming_request_spec(s2, a_peer);
                e3 != HandshakeEffect::Completed
            })
        }),
{
    let (s1, e1) = request_connection_spec(s0, a_peer);
    assert(name_listed(s1.pending_requests, a_peer)) by {
        assert(s1.pending_requests.last() == a_peer);
    }
    let (s2, e2) = incoming_request_spec(s1, a_peer);
    lemma_name_removed_absent(s1.pending_requests, a_peer);
    lemma_name_removed_absent(s1.incoming_requests, a_peer);
    let (s3, e3) = incoming_request_spec(s2, a_peer);
    assert(e3 == HandshakeEffect::RequestRecorded);
}

/// After removing a name it is no longer listed.
pub proof fn lemma_name_removed_absent(names: Seq<Seq<char>>, name: Seq<char>)
    ensures
        !name_listed(name_removed(names, name), name),
    decreases names.len(),
{
    reveal(Seq::filter);
    let removed = name_removed(names, name);
    if names.len() == 0 {
        assert(removed.len() == 0);
    } else {
        lemma_name_removed_absent(names.drop_last(), name);
        let prev = name_removed(names.drop_last(), name);
        if names.last() != name {
            assert(removed =~= prev.push(names.last()));
            assert forall|i: int| 0 <= i < removed.len() implies removed[i] != name by {
                if i < prev.len() {
                    assert(removed[i] == prev[i]);
                    assert(!name_listed(prev, name));
                } else {
                    assert(removed[i] == names.last());
                }
            }
        } else {
            assert(removed =~= prev);
        }
    }
}

impl HandshakeState {
    /// An empty ledger.
    pub fn new() -> (r: HandshakeState)
        ensures
            r@.pending_requests.len() == 0,
            r@.incoming_requests.len() == 0,
    {
        HandshakeState { pending_requests: Vec::new(), incoming_requests: Vec::new() }
    }

    /// Press "connect" on a peer.
    pub fn request_connection(&mut self, peer: &str) -> (r: HandshakeEffect)
        ensures
            (final(self)@, r) == request_connection_spec(old(self)@, peer@),
    {
        if contains_name(&self.incoming_requests, peer) {
            remove_name(&mut self.pending_requests, peer);
            remove_name(&mut self.incoming_requests, peer);
            HandshakeEffect::Completed
        } else {
            self.pending_requests.push(peer.to_owned());
            proof {
                assert(final(self)@.pending_requests =~= old(self)@.pending_requests.push(peer@));
            }
            HandshakeEffect::Waiting
        }
    }

    /// Take delivery of a peer's connection request.
    pub fn incoming_request(&mut self, peer: &str) -> (r: HandshakeEffect)
        ensures
            (final(self)@, r) == incoming_request_spec(old(self)@, peer@),
    {
        if contains_name(&self.pending_requests, peer) {
            remove_name(&mut self.pending_requests, peer);
            remove_name(&mut self.incoming_requests, peer);
            HandshakeEffect::Completed
        } else {
            self.incoming_requests.push(peer.to_owned());
            proof {
                assert(final(self)@.incoming_requests =~= old(self)@.incoming_requests.push(
                    peer@,
                ));
            }
            HandshakeEffect::RequestRecorded
        }
    }
}

/// Whether a list of names holds this one.
fn contains_name(names: &Vec<String>, name: &str) -> (r: bool)
    ensures
        r == name_listed(names@.map_values(|s: String| s@), name@),
{
    let ghost views = names@.map_values(|s: String| s@);
    let n = names.len();
    let mut i: usize = 0;
    while i < n
        invariant
            views == names@.map_values(|s: String| s@),
            n == views.len(),
            i <= n,
            forall|j: int| 0 <= j < i ==> views[j] != name@,
        decreases n - i,
    {
        proof {
            assert(views[i as int] == names@[i as int]@);
        }
        if str_eq(names[i].as_str(), name) {
            return true;
        }
        i += 1;
    }
    false
}

/// Remove every copy of a name, keeping order.
fn remove_name(names: &mut Vec<String>, name: &str)
    ensures
        final(names)@.map_values(|s: String| s@) == name_removed(
            old(names)@.map_values(|s: String| s@),
            name@,
        ),
{
    let ghost pred = |n: Seq<char>| n != name@;
    let ghost views0 = old(names)@.map_values(|s: String| s@);
    let mut kept: Vec<String> = Vec::new();
    let n = names.len();
    let mut i: usize = 0;
    proof {
        reveal_with_fuel(Seq::filter, 2);
        assert(views0.take(0).filter(pred) =~= Seq::<Seq<char>>::empty());
    }
    while i < n
        invariant
            names == old(names),
            views0 == old(names)@.map_values(|s: String| s@),
            n == views0.len(),
            pred == (|n: Seq<char>| n != name@),
            i <= n,
            kept@.map_values(|s: String| s@) == views0.take(i as int).filter(pred),
        decreases n - i,
    {
        let ghost taken = views0.take(i as int);
        let ghost cur = views0[i as int];
        proof {
            reveal_with_fuel(Seq::filter, 2);
            assert(views0.take(i + 1) =~= taken.push(cur));
            Seq::filter_distributes_over_add(taken, seq![cur], pred);
            assert(taken + seq![cur] =~= taken.push(cur));
            assert(seq![cur].drop_last() =~= Seq::<Seq<char>>::empty());
            assert(seq![cur].last() == cur);
            assert(Seq::<Seq<char>>::empty().filter(pred) =~= Seq::<Seq<char>>::empty());
            if pred(cur) {
                assert(seq![cur].filter(pred) =~= seq![cur]);
            } else {
                assert(seq![cur].filter(pred) =~= Seq::<Seq<char>>::empty());
            }
            assert(views0[i as int] == names@[i as int]@);
        }
        if !str_eq(names[i].as_str(), name) {
            kept.push(names[i].clone());
            proof {
                assert(kept@.map_values(|s: String| s@) =~= views0.take(i + 1).filter(pred));
            }
        } else {
            proof {
                assert(!pred(cur));
                assert(kept@.map_values(|s: String| s@) =~= views0.take(i + 1).filter(pred));
            }
        }
        i += 1;
    }
    proof {
        assert(views0.take(n as int) =~= views0);
    }
    *names = kept;
}

// --- Punch targets ---

/// Whether a punch target is still worth dialling at `now`.
pub open spec fn punch_alive(t: PunchTarget, now: u64) -> bool {
    now - t.started_at < PUNCH_HORIZON_SECS
}

/// Add a punch target.
pub fn add_punch_target(targets: &mut Vec<PunchTarget>, name: &str, address: &str, now: u64)
    ensures
        final(targets)@.len() == old(targets)@.len() + 1,
        final(targets)@.last().name@ == name@,
        final(targets)@.last().address@ == address@,
        final(targets)@.last().started_at == now,
        forall|i: int| 0 <= i < old(targets)@.len() ==> final(targets)@[i] == old(targets)@[i],
{
    targets.push(PunchTarget { name: name.to_owned(), address: address.to_owned(), started_at: now });
}

/// Drop punch targets past the retry horizon; survivors keep their
/// order, and each survivor's age at `now` is under the horizon.
pub fn expire_punch_targets(targets: &mut Vec<PunchTarget>, now: u64)
    ensures
        forall|i: int|
            0 <= i < final(targets)@.len() ==> punch_alive(#[trigger] final(targets)@[i], now),
        final(targets)@.len() <= old(targets)@.len(),
        final(targets)@ == old(targets)@.filter((|t: PunchTarget| now - t.started_at < PUNCH_HORIZON_SECS)),
{
    let ghost pred = |t: PunchTarget| now - t.started_at < PUNCH_HORIZON_SECS;
    let mut kept: Vec<PunchTarget> = Vec::new();
    let n = targets.len();
    let mut i: usize = 0;
    proof {
        reveal_with_fuel(Seq::filter, 2);
        assert(old(targets)@.take(0).filter(pred) =~= Seq::<PunchTarget>::empty());
    }
    while i < n
        invariant
            targets == old(targets),
            n == targets@.len(),
            i <= n,
            pred == (|t: PunchTarget| now - t.started_at < PUNCH_HORIZON_SECS),
            forall|k: int| 0 <= k < kept@.len() ==> punch_alive(#[trigger] kept@[k], now),
            kept@ == old(targets)@.take(i as int).filter(pred),
        decreases n - i,
    {
        let ghost taken = old(targets)@.take(i as int);
        let ghost cur = old(targets)@[i as int];
        proof {
            reveal_with_fuel(Seq::filter, 2);
            assert(old(targets)@.take(i + 1) =~= taken.push(cur));
            Seq::filter_distributes_over_add(taken, seq![cur], pred);
            assert(taken + seq![cur] =~= taken.push(cur));
            assert(seq![cur].drop_last() =~= Seq::<PunchTarget>::empty());
            assert(seq![cur].last() == cur);
            assert(Seq::<PunchTarget>::empty().filter(pred) =~= Seq::<PunchTarget>::empty());
            if pred(cur) {
                assert(seq![cur].filter(pred) =~= seq![cur]);
            } else {
                assert(seq![cur].filter(pred) =~= Seq::<PunchTarget>::empty());
            }
        }
        let fresh = match now.checked_sub(targets[i].started_at) {
            Some(age) => age < PUNCH_HORIZON_SECS,
            None => true,
        };
        if fresh {
            let t = &targets[i];
            kept.push(
                PunchTarget { name: t.name.clone(), address: t.address.clone(), started_at: t.started_at },
            );
            proof {
                let k = kept@.len() - 1;
                assert(kept@[k] == cur);
                assert(punch_alive(kept@[k], now));
                assert(kept@ =~= old(targets)@.take(i + 1).filter(pred));
            }
        } else {
            proof {
                assert(!pred(cur));
                assert(kept@ =~= old(targets)@.take(i + 1).filter(pred));
            }
        }
        i += 1;
    }
    proof {
        assert(old(targets)@.take(n as int) =~= old(targets)@);
        Seq::lemma_filter_len(old(targets)@, pred);
    }
    *targets = kept;
}

// --- mDNS discovery mode ---

/// The browse requery interval, in seconds: five in fast mode, thirty
/// otherwise.
pub fn requery_interval_secs(fast_discovery: bool) -> (r: u64)
    ensures
        r == (if fast_discovery {
            5u64
        } else {
            30u64
        }),
{
    if fast_discovery {
        5
    } else {
        30
    }
}


// --- The command grammar ---

/// A parsed command from the UI channel. Anything that matches no
/// prefix is presence traffic for the gossip topic.
#[derive(Debug, Clone)]
pub enum UiCommand {
    RequestConnection { peer_id: String },
    Dial { address: String, inviter: String, me: String },
    StartPunch { address: String, target: String },
    RegisterShadow { invitee: String, password: String, me: String },
    DirectMessage { peer_id: String, msg_id: String, timestamp: String, alias: String, content: String },
    ReadReceipt { peer_id: String, ids: String },
    ImageMessage { file_hash: String, peer: String },
    DocumentMessage { file_hash: String, peer: String, filename_b64: String },
    VideoMessage { file_hash: String, peer: String, filename_b64: String },
    Broadcast,
}

/// Whether `s` starts with `p`.
pub open spec fn has_prefix(s: Seq<char>, p: Seq<char>) -> bool {
    p.len() <= s.len() && s.subrange(0, p.len() as int) == p
}

/// Check a prefix, character by character.
fn starts_with_str(s: &str, p: &str) -> (r: bool)
    ensures
        r == has_prefix(s@, p@),
{
    let sn = s.unicode_len();
    let pn = p.unicode_len();
    if pn > sn {
        return false;
    }
    let mut i: usize = 0;
    while i < pn
        invariant
            sn == s@.len(),
            pn == p@.len(),
            pn <= sn,
            i <= pn,
            forall|j: int| 0 <= j < i ==> s@[j] == p@[j],
        decreases pn - i,
    {
        if s.get_char(i) != p.get_char(i) {
            proof {
                assert(s@.subrange(0, p@.len() as int)[i as int] == s@[i as int]);
            }
            return false;
        }
        i += 1;
    }
    proof {
        crate::json::lemma_eq_subrange_chars(s@, 0, p@);
    }
    true
}

/// Whether `n` colons stand at or after `from`, in order.
pub open spec fn has_n_colons(s: Seq<char>, from: int, n: int) -> bool
    decreases n,
{
    if n <= 0 {
        true
    } else {
        exists|j: int|
            from <= j < s.len() && #[trigger] s[j] == ':' && has_n_colons(s, j + 1, n - 1)
    }
}

/// Room to the left only helps: a colon chain from `b` is one from any
/// earlier `a`.
proof fn lemma_colons_monotone(s: Seq<char>, a: int, b: int, n: int)
    requires
        a <= b,
        has_n_colons(s, b, n),
    ensures
        has_n_colons(s, a, n),
    decreases n,
{
    if n > 0 {
        let j = choose|j: int|
            b <= j < s.len() && #[trigger] s[j] == ':' && has_n_colons(s, j + 1, n - 1);
        assert(a <= j < s.len() && s[j] == ':' && has_n_colons(s, j + 1, n - 1));
    }
}

/// A colon chain survives stepping past the first colon.
proof fn lemma_colons_step(s: Seq<char>, from: int, n: int, c: int)
    requires
        n >= 1,
        has_n_colons(s, from, n),
        from <= c < s.len(),
        s[c] == ':',
        forall|j: int| from <= j < c ==> s[j] != ':',
    ensures
        has_n_colons(s, c + 1, n - 1),
{
    let j = choose|j: int|
        from <= j < s.len() && #[trigger] s[j] == ':' && has_n_colons(s, j + 1, n - 1);
    assert(j >= c);
    lemma_colons_monotone(s, c + 1, j + 1, n - 1);
}

/// Find `want` colons greedily from `start`: their positions, or the
/// certainty that no such chain exists.
#[verifier::rlimit(100)]
fn find_colon_run(s: &str, start: usize, want: usize) -> (r: Option<Vec<usize>>)
    requires
        start <= s@.len(),
        1 <= want <= 8,
    ensures
        match r {
            Some(ps) => {
                &&& ps@.len() == want
                &&& (forall|t: int|
                    0 <= t < want ==> start <= #[trigger] ps@[t] < s@.len()
                        && s@[ps@[t] as int] == ':')
                &&& (forall|t: int| 1 <= t < want ==> ps@[t - 1] < #[trigger] ps@[t])
                &&& (forall|j: int| start <= j < ps@[0] ==> s@[j] != ':')
                &&& (forall|t: int, j: int|
                    #![trigger ps@[t], s@[j]]
                    1 <= t < want && ps@[t - 1] < j < ps@[t] ==> s@[j] != ':')
            },
            None => !has_n_colons(s@, start as int, want as int),
        },
{
    let mut ps: Vec<usize> = Vec::new();
    let mut cur = start;
    let mut m: usize = 0;
    while m < want
        invariant
            start <= cur <= s@.len(),
            m <= want,
            want <= 8,
            ps@.len() == m,
            has_n_colons(s@, start as int, want as int) ==> has_n_colons(
                s@,
                cur as int,
                (want - m) as int,
            ),
            forall|t: int|
                0 <= t < m ==> start <= #[trigger] ps@[t] < s@.len() && s@[ps@[t] as int] == ':',
            forall|t: int| 1 <= t < m ==> ps@[t - 1] < #[trigger] ps@[t],
            m > 0 ==> cur == ps@[m - 1] + 1,
            m == 0 ==> cur == start,
            forall|j: int| start <= j < (if m == 0 { start as int } else { ps@[0] as int }) ==> s@[j]
                != ':',
            forall|t: int, j: int|
                #![trigger ps@[t], s@[j]]
                1 <= t < m && ps@[t - 1] < j < ps@[t] ==> s@[j] != ':',
        decreases want - m,
    {
        match find_colon(s, cur) {
            Some(c) => {
                proof {
                    if has_n_colons(s@, start as int, want as int) {
                        lemma_colons_step(s@, cur as int, (want - m) as int, c as int);
                    }
                    assert(c < s@.len());
                }
                let n_here = s.unicode_len();
                ps.push(c);
                cur = c + 1;
                m += 1;
            },
            None => {
                proof {
                    if has_n_colons(s@, start as int, want as int) {
                        let j = choose|j: int|
                            cur <= j < s@.len() && #[trigger] s@[j] == ':' && has_n_colons(
                                s@,
                                j + 1,
                                (want - m) as int - 1,
                            );
                        assert(false);
                    }
                }
                return None;
            },
        }
    }
    Some(ps)
}

/// The position of the first colon at or after `from`.
fn find_colon(s: &str, from: usize) -> (r: Option<usize>)
    requires
        from <= s@.len(),
    ensures
        match r {
            Some(i) => from <= i < s@.len() && s@[i as int] == ':' && (forall|j: int|
                from <= j < i ==> s@[j] != ':'),
            None => forall|j: int| from <= j < s@.len() ==> s@[j] != ':',
        },
{
    let n = s.unicode_len();
    let mut i: usize = from;
    while i < n
        invariant
            n == s@.len(),
            from <= i <= n,
            forall|j: int| from <= j < i ==> s@[j] != ':',
        decreases n - i,
    {
        if s.get_char(i) == ':' {
            return Some(i);
        }
        i += 1;
    }
    None
}

/// The characters from `from` to `to`, as a fresh string.
fn char_range(s: &str, from: usize, to: usize) -> (r: String)
    requires
        from <= to <= s@.len(),
    ensures
        r@ == s@.subrange(from as int, to as int),
{
    s.substring_char(from, to).to_owned()
}

/// At most one command prefix opens a given string: the prefixes differ
/// within their common length.
pub proof fn lemma_prefixes_exclusive(s: Seq<char>)
    ensures
        !(has_prefix(s, "REQUEST_CONNECTION:"@) && has_prefix(s, "DM:"@)),
        !(has_prefix(s, "REQUEST_CONNECTION:"@) && has_prefix(s, "READ_RECEIPT:"@)),
        !(has_prefix(s, "REQUEST_CONNECTION:"@) && has_prefix(s, "DIAL:"@)),
        !(has_prefix(s, "REQUEST_CONNECTION:"@) && has_prefix(s, "START_PUNCH:"@)),
        !(has_prefix(s, "REQUEST_CONNECTION:"@) && has_prefix(s, "REGISTER_SHADOW:"@)),
        !(has_prefix(s, "REQUEST_CONNECTION:"@) && has_prefix(s, "__IMAGE_MSG__:"@)),
        !(has_prefix(s, "REQUEST_CONNECTION:"@) && has_prefix(s, "__DOCUMENT_MSG__:"@)),
        !(has_prefix(s, "REQUEST_CONNECTION:"@) && has_prefix(s, "__VIDEO_MSG__:"@)),
        !(has_prefix(s, "DM:"@) && has_prefix(s, "READ_RECEIPT:"@)),
        !(has_prefix(s, "DM:"@) && has_prefix(s, "DIAL:"@)),
        !(has_prefix(s, "DM:"@) && has_prefix(s, "START_PUNCH:"@)),
        !(has_prefix(s, "DM:"@) && has_prefix(s, "REGISTER_SHADOW:"@)),
        !(has_prefix(s, "DM:"@) && has_prefix(s, "__IMAGE_MSG__:"@)),
        !(has_prefix(s, "DM:"@) && has_prefix(s, "__DOCUMENT_MSG__:"@)),
        !(has_prefix(s, "DM:"@) && has_prefix(s, "__VIDEO_MSG__:"@)),
        !(has_prefix(s, "READ_RECEIPT:"@) && has_prefix(s, "DIAL:"@)),
        !(has_prefix(s, "READ_RECEIPT:"@) && has_prefix(s, "START_PUNCH:"@)),
        !(has_prefix(s, "READ_RECEIPT:"@) && has_prefix(s, "REGISTER_SHADOW:"@)),
        !(has_prefix(s, "READ_RECEIPT:"@) && has_prefix(s, "__IMAGE_MSG__:"@)),
        !(has_prefix(s, "READ_RECEIPT:"@) && has_prefix(s, "__DOCUMENT_MSG__:"@)),
        !(has_prefix(s, "READ_RECEIPT:"@) && has_prefix(s, "__VIDEO_MSG__:"@)),
        !(has_prefix(s, "DIAL:"@) && has_prefix(s, "START_PUNCH:"@)),
        !(has_prefix(s, "DIAL:"@) && has_prefix(s, "REGISTER_SHADOW:"@)),
        !(has_prefix(s, "DIAL:"@) && has_prefix(s, "__IMAGE_MSG__:"@)),
        !(has_prefix(s, "DIAL:"@) && has_prefix(s, "__DOCUMENT_MSG__:"@)),
        !(has_prefix(s, "DIAL:"@) && has_prefix(s, "__VIDEO_MSG__:"@)),
        !(has_prefix(s, "START_PUNCH:"@) && has_prefix(s, "REGISTER_SHADOW:"@)),
        !(has_prefix(s, "START_PUNCH:"@) && has_prefix(s, "__IMAGE_MSG__:"@)),
        !(has_prefix(s, "START_PUNCH:"@) && has_prefix(s, "__DOCUMENT_MSG__:"@)),
        !(has_prefix(s, "START_PUNCH:"@) && has_prefix(s, "__VIDEO_MSG__:"@)),
        !(has_prefix(s, "REGISTER_SHADOW:"@) && has_prefix(s, "__IMAGE_MSG__:"@)),
        !(has_prefix(s, "REGISTER_SHADOW:"@) && has_prefix(s, "__DOCUMENT_MSG__:"@)),
        !(has_prefix(s, "REGISTER_SHADOW:"@) && has_prefix(s, "__VIDEO_MSG__:"@)),
        !(has_prefix(s, "__IMAGE_MSG__:"@) && has_prefix(s, "__DOCUMENT_MSG__:"@)),
        !(has_prefix(s, "__IMAGE_MSG__:"@) && has_prefix(s, "__VIDEO_MSG__:"@)),
        !(has_prefix(s, "__DOCUMENT_MSG__:"@) && has_prefix(s, "__VIDEO_MSG__:"@)),
{
    reveal_strlit("REQUEST_CONNECTION:");
    reveal_strlit("DM:");
    reveal_strlit("READ_RECEIPT:");
    reveal_strlit("DIAL:");
    reveal_strlit("START_PUNCH:");
    reveal_strlit("REGISTER_SHADOW:");
    reveal_strlit("__IMAGE_MSG__:");
    reveal_strlit("__DOCUMENT_MSG__:");
    reveal_strlit("__VIDEO_MSG__:");
    if has_prefix(s, "REQUEST_CONNECTION:"@) && has_prefix(s, "DM:"@) {
        assert(s.subrange(0, "REQUEST_CONNECTION:"@.len() as int)[0] == s[0]);
        assert(s.subrange(0, "DM:"@.len() as int)[0] == s[0]);
        assert(false);
    }
    if has_prefix(s, "REQUEST_CONNECTION:"@) && has_prefix(s, "READ_RECEIPT:"@) {
        assert(s.subrange(0, "REQUEST_CONNECTION:"@.len() as int)[2] == s[2]);
        assert(s.subrange(0, "READ_RECEIPT:"@.len() as int)[2] == s[2]);
        assert(false);
    }
    if has_prefix(s, "REQUEST_CONNECTION:"@) && has_prefix(s, "DIAL:"@) {
        assert(s.subrange(0, "REQUEST_CONNECTION:"@.len() as int)[0] == s[0]);
        assert(s.subrange(0, "DIAL:"@.len() as int)[0] == s[0]);
        assert(false);
    }
    if has_prefix(s, "REQUEST_CONNECTION:"@) && has_prefix(s, "START_PUNCH:"@) {
        assert(s.subrange(0, "REQUEST_CONNECTION:"@.len() as int)[0] == s[0]);
        assert(s.subrange(0, "START_PUNCH:"@.len() as int)[0] == s[0]);
        assert(false);
    }
    if has_prefix(s, "REQUEST_CONNECTION:"@) && has_prefix(s, "REGISTER_SHADOW:"@) {
        assert(s.subrange(0, "REQUEST_CONNECTION:"@.len() as int)[2] == s[2]);
        assert(s.subrange(0, "REGISTER_SHADOW:"@.len() as int)[2] == s[2]);
        assert(false);
    }
    if has_prefix(s, "REQUEST_CONNECTION:"@) && has_prefix(s, "__IMAGE_MSG__:"@) {
        assert(s.subrange(0, "REQUEST_CONNECTION:"@.len() as int)[0] == s[0]);
        assert(s.subrange(0, "__IMAGE_MSG__:"@.len() as int)[0] == s[0]);
        assert(false);
    }
    if has_prefix(s, "REQUEST_CONNECTION:"@) && has_prefix(s, "__DOCUMENT_MSG__:"@) {
        assert(s.subrange(0, "REQUEST_CONNECTION:"@.len() as int)[0] == s[0]);
        assert(s.subrange(0, "__DOCUMENT_MSG__:"@.len() as int)[0] == s[0]);
        assert(false);
    }
    if has_prefix(s, "REQUEST_CONNECTION:"@) && has_prefix(s, "__VIDEO_MSG__:"@) {
        assert(s.subrange(0, "REQUEST_CONNECTION:"@.len() as int)[0] == s[0]);
        assert(s.subrange(0, "__VIDEO_MSG__:"@.len() as int)[0] == s[0]);
        assert(false);
    }
    if has_prefix(s, "DM:"@) && has_prefix(s, "READ_RECEIPT:"@) {
        assert(s.subrange(0, "DM:"@.len() as int)[0] == s[0]);
        assert(s.subrange(0, "READ_RECEIPT:"@.len() as int)[0] == s[0]);
        assert(false);
    }
    if has_prefix(s, "DM:"@) && has_prefix(s, "DIAL:"@) {
        assert(s.subrange(0, "DM:"@.len() as int)[1] == s[1]);
        assert(s.subrange(0, "DIAL:"@.len() as int)[1] == s[1]);
        assert(false);
    }
    if has_prefix(s, "DM:"@) && has_prefix(s, "START_PUNCH:"@) {
        assert(s.subrange(0, "DM:"@.len() as int)[0] == s[0]);
        assert(s.subrange(0, "START_PUNCH:"@.len() as int)[0] == s[0]);
        assert(false);
    }
    if has_prefix(s, "DM:"@) && has_prefix(s, "REGISTER_SHADOW:"@) {
        assert(s.subrange(0, "DM:"@.len() as int)[0] == s[0]);
        assert(s.subrange(0, "REGISTER_SHADOW:"@.len() as int)[0] == s[0]);
        assert(false);
    }
    if has_prefix(s, "DM:"@) && has_prefix(s, "__IMAGE_MSG__:"@) {
        assert(s.subrange(0, "DM:"@.len() as int)[0] == s[0]);
        assert(s.subrange(0, "__IMAGE_MSG__:"@.len() as int)[0] == s[0]);
        assert(false);
    }
    if has_prefix(s, "DM:"@) && has_prefix(s, "__DOCUMENT_MSG__:"@) {
        assert(s.subrange(0, "DM:"@.len() as int)[0] == s[0]);
        assert(s.subrange(0, "__DOCUMENT_MSG__:"@.len() as int)[0] == s[0]);
        assert(false);
    }
    if has_prefix(s, "DM:"@) && has_prefix(s, "__VIDEO_MSG__:"@) {
        assert(s.subrange(0, "DM:"@.len() as int)[0] == s[0]);
        assert(s.subrange(0, "__VIDEO_MSG__:"@.len() as int)[0] == s[0]);
        assert(false);
    }
    if has_prefix(s, "READ_RECEIPT:"@) && has_prefix(s, "DIAL:"@) {
        assert(s.subrange(0, "READ_RECEIPT:"@.len() as int)[0] == s[0]);
        assert(s.subrange(0, "DIAL:"@.len() as int)[0] == s[0]);
        assert(false);
    }
    if has_prefix(s, "READ_RECEIPT:"@) && has_prefix(s, "START_PUNCH:"@) {
        assert(s.subrange(0, "READ_RECEIPT:"@.len() as int)[0] == s[0]);
        assert(s.subrange(0, "START_PUNCH:"@.len() as int)[0] == s[0]);
        assert(false);
    }
    if has_prefix(s, "READ_RECEIPT:"@) && has_prefix(s, "REGISTER_SHADOW:"@) {
        assert(s.subrange(0, "READ_RECEIPT:"@.len() as int)[2] == s[2]);
        assert(s.subrange(0, "REGISTER_SHADOW:"@.len() as int)[2] == s[2]);
        assert(false);
    }
    if has_prefix(s, "READ_RECEIPT:"@) && has_prefix(s, "__IMAGE_MSG__:"@) {
        assert(s.subrange(0, "READ_RECEIPT:"@.len() as int)[0] == s[0]);
        assert(s.subrange(0, "__IMAGE_MSG__:"@.len() as int)[0] == s[0]);
        assert(false);
    }
    if has_prefix(s, "READ_RECEIPT:"@) && has_prefix(s, "__DOCUMENT_MSG__:"@) {
        assert(s.subrange(0, "READ_RECEIPT:"@.len() as int)[0] == s[0]);
        assert(s.subrange(0, "__DOCUMENT_MSG__:"@.len() as int)[0] == s[0]);
        assert(false);
    }
    if has_prefix(s, "READ_RECEIPT:"@) && has_prefix(s, "__VIDEO_MSG__:"@) {
        assert(s.subrange(0, "READ_RECEIPT:"@.len() as int)[0] == s[0]);
        assert(s.subrange(0, "__VIDEO_MSG__:"@.len() as int)[0] == s[0]);
        assert(false);
    }
    if has_prefix(s, "DIAL:"@) && has_prefix(s, "START_PUNCH:"@) {
        assert(s.subrange(0, "DIAL:"@.len() as int)[0] == s[0]);
        assert(s.subrange(0, "START_PUNCH:"@.len() as int)[0] == s[0]);
        assert(false);
    }
    if has_prefix(s, "DIAL:"@) && has_prefix(s, "REGISTER_SHADOW:"@) {
        assert(s.subrange(0, "DIAL:"@.len() as int)[0] == s[0]);
        assert(s.subrange(0, "REGISTER_SHADOW:"@.len() as int)[0] == s[0]);
        assert(false);
    }
    if has_prefix(s, "DIAL:"@) && has_prefix(s, "__IMAGE_MSG__:"@) {
        assert(s.subrange(0, "DIAL:"@.len() as int)[0] == s[0]);
        assert(s.subrange(0, "__IMAGE_MSG__:"@.len() as int)[0] == s[0]);
        assert(false);
    }
    if has_prefix(s, "DIAL:"@) && has_prefix(s, "__DOCUMENT_MSG__:"@) {
        assert(s.subrange(0, "DIAL:"@.len() as int)[0] == s[0]);
        assert(s.subrange(0, "__DOCUMENT_MSG__:"@.len() as int)[0] == s[0]);
        assert(false);
    }
    if has_prefix(s, "DIAL:"@) && has_prefix(s, "__VIDEO_MSG__:"@) {
        assert(s.subrange(0, "DIAL:"@.len() as int)[0] == s[0]);
        assert(s.subrange(0, "__VIDEO_MSG__:"@.len() as int)[0] == s[0]);
        assert(false);
    }
    if has_prefix(s, "START_PUNCH:"@) && has_prefix(s, "REGISTER_SHADOW:"@) {
        assert(s.subrange(0, "START_PUNCH:"@.len() as int)[0] == s[0]);
        assert(s.subrange(0, "REGISTER_SHADOW:"@.len() as int)[0] == s[0]);
        assert(false);
    }
    if has_prefix(s, "START_PUNCH:"@) && has_prefix(s, "__IMAGE_MSG__:"@) {
        assert(s.subrange(0, "START_PUNCH:"@.len() as int)[0] == s[0]);
        assert(s.subrange(0, "__IMAGE_MSG__:"@.len() as int)[0] == s[0]);
        assert(false);
    }
    if has_prefix(s, "START_PUNCH:"@) && has_prefix(s, "__DOCUMENT_MSG__:"@) {
        assert(s.subrange(0, "START_PUNCH:"@.len() as int)[0] == s[0]);
        assert(s.subrange(0, "__DOCUMENT_MSG__:"@.len() as int)[0] == s[0]);
        assert(false);
    }
    if has_prefix(s, "START_PUNCH:"@) && has_prefix(s, "__VIDEO_MSG__:"@) {
        assert(s.subrange(0, "START_PUNCH:"@.len() as int)[0] == s[0]);
        assert(s.subrange(0, "__VIDEO_MSG__:"@.len() as int)[0] == s[0]);
        assert(false);
    }
    if has_prefix(s, "REGISTER_SHADOW:"@) && has_prefix(s, "__IMAGE_MSG__:"@) {
        assert(s.subrange(0, "REGISTER_SHADOW:"@.len() as int)[0] == s[0]);
        assert(s.subrange(0, "__IMAGE_MSG__:"@.len() as int)[0] == s[0]);
        assert(false);
    }
    if has_prefix(s, "REGISTER_SHADOW:"@) && has_prefix(s, "__DOCUMENT_MSG__:"@) {
        assert(s.subrange(0, "REGISTER_SHADOW:"@.len() as int)[0] == s[0]);
        assert(s.subrange(0, "__DOCUMENT_MSG__:"@.len() as int)[0] == s[0]);
        assert(false);
    }
    if has_prefix(s, "REGISTER_SHADOW:"@) && has_prefix(s, "__VIDEO_MSG__:"@) {
        assert(s.subrange(0, "REGISTER_SHADOW:"@.len() as int)[0] == s[0]);
        assert(s.subrange(0, "__VIDEO_MSG__:"@.len() as int)[0] == s[0]);
        assert(false);
    }
    if has_prefix(s, "__IMAGE_MSG__:"@) && has_prefix(s, "__DOCUMENT_MSG__:"@) {
        assert(s.subrange(0, "__IMAGE_MSG__:"@.len() as int)[2] == s[2]);
        assert(s.subrange(0, "__DOCUMENT_MSG__:"@.len() as int)[2] == s[2]);
        assert(false);
    }
    if has_prefix(s, "__IMAGE_MSG__:"@) && has_prefix(s, "__VIDEO_MSG__:"@) {
        assert(s.subrange(0, "__IMAGE_MSG__:"@.len() as int)[2] == s[2]);
        assert(s.subrange(0, "__VIDEO_MSG__:"@.len() as int)[2] == s[2]);
        assert(false);
    }
    if has_prefix(s, "__DOCUMENT_MSG__:"@) && has_prefix(s, "__VIDEO_MSG__:"@) {
        assert(s.subrange(0, "__DOCUMENT_MSG__:"@.len() as int)[2] == s[2]);
        assert(s.subrange(0, "__VIDEO_MSG__:"@.len() as int)[2] == s[2]);
        assert(false);
    }
}

/// Parse one command of the UI channel. A `DM` carries five fields after
/// the prefix, split at the first four colons, so the content itself may
/// contain colons; a read receipt likewise keeps its comma-separated ids
/// after the second colon. A recognized prefix with enough separators
/// always parses to its command; unknown text is presence traffic.
#[verifier::rlimit(100)]
#[verifier::spinoff_prover]
pub fn parse_ui_command(msg: &str) -> (r: UiCommand)
    ensures
        match r {
            UiCommand::RequestConnection { peer_id } => msg@ =~= "REQUEST_CONNECTION:"@
                + peer_id@,
            UiCommand::DirectMessage { peer_id, msg_id, timestamp, alias, content } => {
                &&& msg@ =~= "DM:"@ + peer_id@ + seq![':'] + msg_id@ + seq![':'] + timestamp@
                    + seq![':'] + alias@ + seq![':'] + content@
                &&& (forall|j: int| 0 <= j < peer_id@.len() ==> peer_id@[j] != ':')
                &&& (forall|j: int| 0 <= j < msg_id@.len() ==> msg_id@[j] != ':')
                &&& (forall|j: int| 0 <= j < timestamp@.len() ==> timestamp@[j] != ':')
                &&& (forall|j: int| 0 <= j < alias@.len() ==> alias@[j] != ':')
            },
            UiCommand::ReadReceipt { peer_id, ids } => {
                &&& msg@ =~= "READ_RECEIPT:"@ + peer_id@ + seq![':'] + ids@
                &&& (forall|j: int| 0 <= j < peer_id@.len() ==> peer_id@[j] != ':')
            },
            _ => true,
        },
        has_prefix(msg@, "REQUEST_CONNECTION:"@) ==> r is RequestConnection,
        has_prefix(msg@, "DM:"@) && has_n_colons(msg@, 3, 4) ==> r is DirectMessage,
        has_prefix(msg@, "READ_RECEIPT:"@) && has_n_colons(msg@, 13, 1) ==> r is ReadReceipt,
        has_prefix(msg@, "DIAL:"@) && has_n_colons(msg@, 5, 2) ==> r is Dial,
        has_prefix(msg@, "START_PUNCH:"@) && has_n_colons(msg@, 12, 1) ==> r is StartPunch,
        has_prefix(msg@, "REGISTER_SHADOW:"@) && has_n_colons(msg@, 16, 2)
            ==> r is RegisterShadow,
        has_prefix(msg@, "__IMAGE_MSG__:"@) && has_n_colons(msg@, 14, 1) ==> r is ImageMessage,
        has_prefix(msg@, "__DOCUMENT_MSG__:"@) && has_n_colons(msg@, 17, 2)
            ==> r is DocumentMessage,
        has_prefix(msg@, "__VIDEO_MSG__:"@) && has_n_colons(msg@, 14, 2) ==> r is VideoMessage,
{
    proof {
        reveal_strlit("REQUEST_CONNECTION:");
        reveal_strlit("DM:");
        reveal_strlit("READ_RECEIPT:");
        reveal_strlit("DIAL:");
        reveal_strlit("START_PUNCH:");
        reveal_strlit("REGISTER_SHADOW:");
        reveal_strlit("__IMAGE_MSG__:");
        reveal_strlit("__DOCUMENT_MSG__:");
        reveal_strlit("__VIDEO_MSG__:");
        lemma_prefixes_exclusive(msg@);
    }
    let n = msg.unicode_len();
    if starts_with_str(msg, "REQUEST_CONNECTION:") {
        let peer_id = char_range(msg, 19, n);
        proof {
            assert(msg@ =~= "REQUEST_CONNECTION:"@ + msg@.subrange(19, n as int));
        }
        return UiCommand::RequestConnection { peer_id };
    }
    if starts_with_str(msg, "DM:") {
        let ps = match find_colon_run(msg, 3, 4) {
            Some(ps) => ps,
            None => {
                return UiCommand::Broadcast;
            },
        };
        let (c1, c2, c3, c4) = (ps[0], ps[1], ps[2], ps[3]);
        let peer_id = char_range(msg, 3, c1);
        let msg_id = char_range(msg, c1 + 1, c2);
        let timestamp = char_range(msg, c2 + 1, c3);
        let alias = char_range(msg, c3 + 1, c4);
        let content = char_range(msg, c4 + 1, n);
        proof {
            assert(msg@ =~= "DM:"@ + msg@.subrange(3, c1 as int) + seq![':'] + msg@.subrange(
                c1 + 1,
                c2 as int,
            ) + seq![':'] + msg@.subrange(c2 + 1, c3 as int) + seq![':'] + msg@.subrange(
                c3 + 1,
                c4 as int,
            ) + seq![':'] + msg@.subrange(c4 + 1, n as int));
        }
        return UiCommand::DirectMessage { peer_id, msg_id, timestamp, alias, content };
    }
    if starts_with_str(msg, "READ_RECEIPT:") {
        let ps = match find_colon_run(msg, 13, 1) {
            Some(ps) => ps,
            None => {
                return UiCommand::Broadcast;
            },
        };
        let c1 = ps[0];
        let peer_id = char_range(msg, 13, c1);
        let ids = char_range(msg, c1 + 1, n);
        proof {
            assert(msg@ =~= "READ_RECEIPT:"@ + msg@.subrange(13, c1 as int) + seq![':']
                + msg@.subrange(c1 + 1, n as int));
        }
        return UiCommand::ReadReceipt { peer_id, ids };
    }
    if starts_with_str(msg, "DIAL:") {
        let ps = match find_colon_run(msg, 5, 2) {
            Some(ps) => ps,
            None => {
                return UiCommand::Broadcast;
            },
        };
        return UiCommand::Dial {
            address: char_range(msg, 5, ps[0]),
            inviter: char_range(msg, ps[0] + 1, ps[1]),
            me: char_range(msg, ps[1] + 1, n),
        };
    }
    if starts_with_str(msg, "START_PUNCH:") {
        let ps = match find_colon_run(msg, 12, 1) {
            Some(ps) => ps,
            None => {
                return UiCommand::Broadcast;
            },
        };
        return UiCommand::StartPunch {
            address: char_range(msg, 12, ps[0]),
            target: char_range(msg, ps[0] + 1, n),
        };
    }
    if starts_with_str(msg, "REGISTER_SHADOW:") {
        let ps = match find_colon_run(msg, 16, 2) {
            Some(ps) => ps,
            None => {
                return UiCommand::Broadcast;
            },
        };
        return UiCommand::RegisterShadow {
            invitee: char_range(msg, 16, ps[0]),
            password: char_range(msg, ps[0] + 1, ps[1]),
            me: char_range(msg, ps[1] + 1, n),
        };
    }
    if starts_with_str(msg, "__IMAGE_MSG__:") {
        let ps = match find_colon_run(msg, 14, 1) {
            Some(ps) => ps,
            None => {
                return UiCommand::Broadcast;
            },
        };
        return UiCommand::ImageMessage {
            file_hash: char_range(msg, 14, ps[0]),
            peer: char_range(msg, ps[0] + 1, n),
        };
    }
    if starts_with_str(msg, "__DOCUMENT_MSG__:") {
        let ps = match find_colon_run(msg, 17, 2) {
            Some(ps) => ps,
            None => {
                return UiCommand::Broadcast;
            },
        };
        return UiCommand::DocumentMessage {
            file_hash: char_range(msg, 17, ps[0]),
            peer: char_range(msg, ps[0] + 1, ps[1]),
            filename_b64: char_range(msg, ps[1] + 1, n),
        };
    }
    if starts_with_str(msg, "__VIDEO_MSG__:") {
        let ps = match find_colon_run(msg, 14, 2) {
            Some(ps) => ps,
            None => {
                return UiCommand::Broadcast;
            },
        };
        return UiCommand::VideoMessage {
            file_hash: char_range(msg, 14, ps[0]),
            peer: char_range(msg, ps[0] + 1, ps[1]),
            filename_b64: char_range(msg, ps[1] + 1, n),
        };
    }
    UiCommand::Broadcast
}

// --- Gossip signalling ---

/// What a gossip message means: a connection request, a legacy media
/// pointer, or plain chat text.
#[derive(Debug, Clone)]
pub enum GossipEvent {
    ConnectionRequest { peer_id: String },
    ImagePointer { file_hash: String, from_peer: String },
    Chat,
}

/// Classify one gossip message. Connection requests and the legacy image
/// pointers are signalling, and a recognized prefix with its separator
/// always classifies as such; everything else is chat text.
pub fn parse_gossip(text: &str) -> (r: GossipEvent)
    ensures
        match r {
            GossipEvent::ConnectionRequest { peer_id } => text@ =~= "__CONNECTION_REQUEST__:"@
                + peer_id@,
            GossipEvent::ImagePointer { file_hash, from_peer } => {
                &&& text@ =~= "__IMAGE_MSG__:"@ + file_hash@ + seq![':'] + from_peer@
                &&& (forall|j: int| 0 <= j < file_hash@.len() ==> file_hash@[j] != ':')
            },
            GossipEvent::Chat => true,
        },
        has_prefix(text@, "__CONNECTION_REQUEST__:"@) ==> r is ConnectionRequest,
        has_prefix(text@, "__IMAGE_MSG__:"@) && has_n_colons(text@, 14, 1)
            ==> r is ImagePointer,
{
    proof {
        reveal_strlit("__CONNECTION_REQUEST__:");
        reveal_strlit("__IMAGE_MSG__:");
        if has_prefix(text@, "__CONNECTION_REQUEST__:"@) && has_prefix(
            text@,
            "__IMAGE_MSG__:"@,
        ) {
            assert(text@.subrange(0, "__CONNECTION_REQUEST__:"@.len() as int)[2] == text@[2]);
            assert(text@.subrange(0, "__IMAGE_MSG__:"@.len() as int)[2] == text@[2]);
            assert(false);
        }
    }
    let n = text.unicode_len();
    if starts_with_str(text, "__CONNECTION_REQUEST__:") {
        let peer_id = char_range(text, 23, n);
        proof {
            assert(text@ =~= "__CONNECTION_REQUEST__:"@ + text@.subrange(23, n as int));
        }
        return GossipEvent::ConnectionRequest { peer_id };
    }
    if starts_with_str(text, "__IMAGE_MSG__:") {
        let ps = match find_colon_run(text, 14, 1) {
            Some(ps) => ps,
            None => {
                return GossipEvent::Chat;
            },
        };
        let c1 = ps[0];
        let file_hash = char_range(text, 14, c1);
        let from_peer = char_range(text, c1 + 1, n);
        proof {
            assert(text@ =~= "__IMAGE_MSG__:"@ + text@.subrange(14, c1 as int) + seq![':']
                + text@.subrange(c1 + 1, n as int));
        }
        return GossipEvent::ImagePointer { file_hash, from_peer };
    }
    GossipEvent::Chat
}

/// The gossip text that asks a peer to connect back.
pub fn connection_request_text(my_peer_id: &str) -> (r: String)
    ensures
        r@ == "__CONNECTION_REQUEST__:"@ + my_peer_id@,
{
    let mut out = String::new();
    out.append("__CONNECTION_REQUEST__:");
    out.append(my_peer_id);
    out
}

} // verus!


