//! Finding the receiver on the local network by mDNS.
//!
//! The receiver publishes a service; a sender that was given no host browses for
//! it. The sender connects to the name that a receiver announced, not to one of
//! its addresses: most of those belong to interfaces that lead elsewhere.
use vstd::prelude::*;

use crate::observe::observed;
use crate::plain::stands_at;
use crate::text::{
    chars_of, lemma_strip_back, lemma_strip_back_once, same_text, string_of, strip_back,
    without_back,
};

verus! {

/// The longest wait for one event while browsing, in nanoseconds.
pub const BROWSE_TICK_NS: u128 = 150_000_000;

/// How long a sender browses for a receiver.
pub const BROWSE_TIMEOUT_MS: u64 = 5000;

/// The type of the service.
pub fn service_type() -> (r: &'static str)
    ensures
        r@ == "_camilla-bridge._tcp.local."@,
{
    "_camilla-bridge._tcp.local."
}

/// A receiver that was found.
#[derive(Debug)]
pub struct DiscoveredPeer {
    pub fullname: String,
    /// The name of the host, to be looked up by the operating system.
    pub host_label: String,
    pub port: u16,
}

/// A receiver that was found, as plain values.
pub struct PeerView {
    pub fullname: Seq<char>,
    pub host_label: Seq<char>,
    pub port: nat,
}

impl View for DiscoveredPeer {
    type V = PeerView;

    open spec fn view(&self) -> PeerView {
        PeerView {
            fullname: self.fullname@,
            host_label: self.host_label@,
            port: self.port as nat,
        }
    }
}

impl Clone for DiscoveredPeer {
    fn clone(&self) -> (r: Self)
        ensures
            r@ == self@,
    {
        DiscoveredPeer {
            fullname: self.fullname.clone(),
            host_label: self.host_label.clone(),
            port: self.port,
        }
    }
}

/// The receivers that a list holds.
pub open spec fn peer_views(v: Seq<DiscoveredPeer>) -> Seq<PeerView> {
    Seq::new(v.len(), |i: int| v[i]@)
}

/// No two entries have the same full name.
pub open spec fn distinct(peers: Seq<PeerView>) -> bool {
    forall|i: int, j: int|
        0 <= i < j < peers.len() ==> #[trigger] peers[i].fullname != #[trigger] peers[j].fullname
}

/// The place of the first entry with the full name, or the length of the list.
pub open spec fn place_of(peers: Seq<PeerView>, fullname: Seq<char>) -> int
    decreases peers.len(),
{
    if peers.len() == 0 || peers[0].fullname == fullname {
        0
    } else {
        1 + place_of(peers.skip(1), fullname)
    }
}

/// The list with an announcement noted: it takes the place of an earlier one of
/// the same name, and else goes to the end.
pub open spec fn noted(peers: Seq<PeerView>, p: PeerView) -> Seq<PeerView> {
    let k = place_of(peers, p.fullname);
    if k < peers.len() {
        peers.update(k, p)
    } else {
        peers.push(p)
    }
}

proof fn lemma_place(peers: Seq<PeerView>, fullname: Seq<char>)
    ensures
        0 <= place_of(peers, fullname) <= peers.len(),
        forall|j: int|
            0 <= j < place_of(peers, fullname) ==> #[trigger] peers[j].fullname != fullname,
        place_of(peers, fullname) < peers.len() ==> peers[place_of(peers, fullname)].fullname
            == fullname,
    decreases peers.len(),
{
    if peers.len() > 0 && peers[0].fullname != fullname {
        lemma_place(peers.skip(1), fullname);
        assert forall|j: int| 0 <= j < place_of(peers, fullname) implies #[trigger] peers[j].fullname
            != fullname by {
            if j > 0 {
                assert(peers.skip(1)[j - 1] == peers[j]);
            }
        }
    }
}

proof fn lemma_place_is(peers: Seq<PeerView>, fullname: Seq<char>, k: int)
    requires
        0 <= k <= peers.len(),
        forall|j: int| 0 <= j < k ==> #[trigger] peers[j].fullname != fullname,
        k < peers.len() ==> peers[k].fullname == fullname,
    ensures
        place_of(peers, fullname) == k,
{
    lemma_place(peers, fullname);
    let f = place_of(peers, fullname);
    if f < k {
        assert(peers[f].fullname != fullname);
    }
    if k < f {
        assert(peers[k].fullname != fullname);
    }
}

/// What happened while browsing.
pub enum BrowseEvent<'a> {
    /// A receiver answered with these.
    Resolved { fullname: &'a str, hostname: &'a str, port: u16 },
    /// Nothing of interest.
    Other,
}

/// The receiver that an answer describes. The dots at the end of a host name are
/// not for the resolver.
pub open spec fn peer_of(fullname: Seq<char>, hostname: Seq<char>, port: u16) -> PeerView {
    PeerView { fullname, host_label: strip_back(hostname, "."@), port: port as nat }
}

/// A search for receivers.
#[derive(Debug)]
pub struct Browser {
    /// Those that were found so far, in the order of their first answers.
    pub peers: Vec<DiscoveredPeer>,
    /// Whether to go on after the first.
    pub wait_for_more: bool,
    /// Whether the search is over before its time.
    pub done: bool,
}

impl Browser {
    /// No receiver is noted twice.
    pub open spec fn wf(self) -> bool {
        distinct(peer_views(self.peers@))
    }

    /// A search that has found nothing.
    pub fn new(wait_for_more: bool) -> (b: Self)
        ensures
            b.wf(),
            peer_views(b.peers@) == Seq::<PeerView>::empty(),
            b.wait_for_more == wait_for_more,
            !b.done,
    {
        let b = Browser { peers: Vec::new(), wait_for_more, done: false };
        assert(peer_views(b.peers@) =~= Seq::<PeerView>::empty());
        b
    }

    /// How long to wait for the next event when so much time is left; `None` ends
    /// the search.
    pub fn next_wait(&self, remaining_ns: u128) -> (r: Option<u128>)
        ensures
            r == if self.done || remaining_ns == 0 {
                None
            } else if remaining_ns < BROWSE_TICK_NS {
                Some(remaining_ns)
            } else {
                Some(BROWSE_TICK_NS)
            },
    {
        if self.done || remaining_ns == 0 {
            None
        } else if remaining_ns < BROWSE_TICK_NS {
            Some(remaining_ns)
        } else {
            Some(BROWSE_TICK_NS)
        }
    }
}

/// Takes in what happened.
pub fn browse(b: &mut Browser, event: BrowseEvent)
    requires
        old(b).wf(),
    ensures
        final(b).wf(),
        final(b).wait_for_more == old(b).wait_for_more,
        match event {
            BrowseEvent::Resolved { fullname, hostname, port } => {
                &&& peer_views(final(b).peers@) == noted(
                    peer_views(old(b).peers@),
                    peer_of(fullname@, hostname@, port),
                )
                &&& final(b).done == (old(b).done || !old(b).wait_for_more)
            },
            BrowseEvent::Other => *final(b) == *old(b),
        },
{
    match event {
        BrowseEvent::Other => {},
        BrowseEvent::Resolved { fullname, hostname, port } => {
            let peer = DiscoveredPeer {
                fullname: fullname.to_owned(),
                host_label: string_of(&without_back(&chars_of(hostname), &chars_of("."))),
                port,
            };
            let ghost p = peer@;
            let ghost before = peer_views(b.peers@);
            assert(p == peer_of(fullname@, hostname@, port));
            let k: usize = find_peer(&b.peers, fullname);
            proof {
                lemma_noted(before, p);
            }
            if k < b.peers.len() {
                b.peers.set(k, peer);
                assert(peer_views(b.peers@) =~= before.update(k as int, p));
            } else {
                b.peers.push(peer);
                assert(peer_views(b.peers@) =~= before.push(p));
            }
            if !b.wait_for_more {
                b.done = true;
            }
        },
    }
}

fn find_peer(peers: &Vec<DiscoveredPeer>, fullname: &str) -> (k: usize)
    ensures
        k == place_of(peer_views(peers@), fullname@),
        k <= peers@.len(),
{
    let n: usize = peers.len();
    let ghost all = peer_views(peers@);
    let mut k: usize = 0;
    while k < n
        invariant
            n == peers@.len(),
            all == peer_views(peers@),
            k <= n,
            forall|j: int| 0 <= j < k ==> #[trigger] all[j].fullname != fullname@,
        decreases n - k,
    {
        if same_text(peers[k].fullname.as_str(), fullname) {
            proof {
                lemma_place_is(all, fullname@, k as int);
            }
            return k;
        }
        assert(all[k as int].fullname == peers@[k as int].fullname@);
        k = k + 1;
    }
    proof {
        lemma_place_is(all, fullname@, n as int);
    }
    n
}

proof fn lemma_noted(peers: Seq<PeerView>, p: PeerView)
    requires
        distinct(peers),
    ensures
        distinct(noted(peers, p)),
        noted(peers, p).contains(p),
        forall|q: PeerView| #[trigger]
            noted(peers, p).contains(q) <==> q == p || (peers.contains(q) && q.fullname
                != p.fullname),
{
    lemma_place(peers, p.fullname);
    let k = place_of(peers, p.fullname);
    let r = noted(peers, p);
    assert(r[k] == p);
    assert forall|i: int, j: int| 0 <= i < j < r.len() implies #[trigger] r[i].fullname
        != #[trigger] r[j].fullname by {
        if i < peers.len() && j < peers.len() {
            assert(peers[i].fullname != peers[j].fullname);
        }
    }
    assert forall|q: PeerView| #[trigger] r.contains(q) <==> q == p || (peers.contains(q)
        && q.fullname != p.fullname) by {
        if r.contains(q) {
            let i = choose|i: int| 0 <= i < r.len() && r[i] == q;
            if i != k {
                assert(peers[i] == q);
                assert(i < peers.len());
                if k < peers.len() {
                    assert(peers[k].fullname == p.fullname);
                    if i < k {
                        assert(peers[i].fullname != peers[k].fullname);
                    } else {
                        assert(peers[k].fullname != peers[i].fullname);
                    }
                }
            }
        }
        if peers.contains(q) && q.fullname != p.fullname {
            let i = choose|i: int| 0 <= i < peers.len() && peers[i] == q;
            assert(r[i] == q);
        }
    }
}

/// The list after a sequence of answers.
pub open spec fn all_noted(answers: Seq<PeerView>) -> Seq<PeerView>
    decreases answers.len(),
{
    if answers.len() == 0 {
        Seq::empty()
    } else {
        noted(all_noted(answers.drop_last()), answers.last())
    }
}

/// Answer `i` is the last one of its name.
pub open spec fn latest(answers: Seq<PeerView>, i: int) -> bool {
    &&& 0 <= i < answers.len()
    &&& forall|j: int|
        i < j < answers.len() ==> #[trigger] answers[j].fullname != answers[i].fullname
}

/// Of every receiver that answered there is exactly one entry, and it holds what
/// the receiver answered last.
pub proof fn law_latest_answer_counts(answers: Seq<PeerView>)
    ensures
        distinct(all_noted(answers)),
        forall|q: PeerView| #[trigger]
            all_noted(answers).contains(q) <==> exists|i: int|
                #[trigger] latest(answers, i) && answers[i] == q,
    decreases answers.len(),
{
    if answers.len() > 0 {
        let before = answers.drop_last();
        let p = answers.last();
        let n: int = answers.len() - 1;
        law_latest_answer_counts(before);
        lemma_noted(all_noted(before), p);
        assert(latest(answers, n));
        assert forall|q: PeerView| #[trigger] all_noted(answers).contains(q) <==> exists|i: int|
            #[trigger] latest(answers, i) && answers[i] == q by {
            if all_noted(answers).contains(q) && q != p {
                assert(all_noted(before).contains(q));
                let i = choose|i: int| #[trigger] latest(before, i) && before[i] == q;
                assert(answers[i] == q);
                assert forall|j: int| i < j < answers.len() implies #[trigger] answers[j].fullname
                    != answers[i].fullname by {
                    if j < n {
                        assert(before[j] == answers[j]);
                    }
                }
                assert(latest(answers, i));
            }
            if exists|i: int| #[trigger] latest(answers, i) && answers[i] == q {
                let i = choose|i: int| #[trigger] latest(answers, i) && answers[i] == q;
                if i != n {
                    assert(answers[n].fullname != q.fullname);
                    assert(before[i] == q);
                    assert forall|j: int| i < j < before.len() implies #[trigger] before[j].fullname
                        != before[i].fullname by {
                        assert(answers[j] == before[j]);
                    }
                    assert(latest(before, i));
                    assert(all_noted(before).contains(q));
                }
            }
        }
    }
}

/// Which receiver to connect to.
#[derive(Debug, Clone, Copy, PartialEq, Eq, Structural)]
pub enum PeerChoice {
    /// None answered.
    Nobody,
    /// The one that answered.
    One,
    /// Several answered: the user has to say which.
    Several,
}

/// Which receiver to connect to, when so many were found.
pub fn choose_peer(found: usize) -> (r: PeerChoice)
    ensures
        r == if found == 0 {
            PeerChoice::Nobody
        } else if found == 1 {
            PeerChoice::One
        } else {
            PeerChoice::Several
        },
{
    if found == 0 {
        PeerChoice::Nobody
    } else if found == 1 {
        PeerChoice::One
    } else {
        PeerChoice::Several
    }
}

/// `gethostname::gethostname`: the name of this machine; `None` if it is not
/// Unicode. What it is depends on the machine.
#[verifier::external_body]
fn host_name() -> (r: Option<String>) {
    gethostname::gethostname().into_string().ok()
}

/// `host` is what the machine can give as its name.
pub closed spec fn host_read(host: Option<String>) -> bool {
    call_ensures(host_name, (), host)
}

/// The name in `host`, as text.
pub open spec fn name_in(host: Option<String>) -> Option<Seq<char>> {
    match host {
        Some(h) => Some(h@),
        None => None,
    }
}

/// What a receiver publishes.
#[derive(Debug)]
pub struct ServiceRegistration {
    /// The name of the service.
    pub instance: String,
    /// The name of the host.
    pub host_name: String,
    pub port: u16,
}

/// The service is named after the machine, or by a fixed name if the machine has
/// none to show.
pub open spec fn instance_of(host: Option<Seq<char>>) -> Seq<char> {
    match host {
        Some(h) => h,
        None => "rpi-camilla-bridge"@,
    }
}

/// `reg` is what a receiver on the machine `host` publishes.
pub open spec fn registers(host: Option<Seq<char>>, port: u16, reg: ServiceRegistration) -> bool {
    &&& reg.instance@ == instance_of(host)
    &&& reg.host_name@ == strip_back(instance_of(host), ".local"@) + ".local."@
    &&& reg.port == port
}

/// The names and values that pairs of texts hold.
pub open spec fn pair_views(v: Seq<(String, String)>) -> Seq<(Seq<char>, Seq<char>)> {
    Seq::new(v.len(), |i: int| (v[i].0@, v[i].1@))
}

/// The properties that a receiver publishes: the version of the program, and that of
/// the wire protocol.
pub fn properties(version: &str) -> (r: Vec<(String, String)>)
    ensures
        pair_views(r@) == seq![("version"@, version@), ("proto"@, "1"@)],
{
    let mut r: Vec<(String, String)> = Vec::new();
    r.push(("version".to_owned(), version.to_owned()));
    r.push(("proto".to_owned(), "1".to_owned()));
    assert(pair_views(r@) =~= seq![("version"@, version@), ("proto"@, "1"@)]);
    r
}

impl ServiceRegistration {
    /// What a receiver on the machine `host` publishes.
    pub fn on_host(host: Option<String>, port: u16) -> (reg: Self)
        ensures
            registers(name_in(host), port, reg),
    {
        let instance: String = match host {
            Some(h) => h,
            None => "rpi-camilla-bridge".to_owned(),
        };
        let mut host_name: String = string_of(
            &without_back(&chars_of(instance.as_str()), &chars_of(".local")),
        );
        host_name.append(".local.");
        ServiceRegistration { instance, host_name, port }
    }

    /// What the receiver on this machine publishes.
    pub fn try_register(port: u16) -> (reg: Self)
        ensures
            exists|host: Option<String>| #[trigger]
                host_read(host) && registers(name_in(host), port, reg),
    {
        let host = observed(host_name);
        assert(host_read(host));
        Self::on_host(host, port)
    }
}

/// The entry is the receiver that answered with these: the same full name and port, and
/// the host name without the dots that it ends with.
pub open spec fn entry_for(
    p: DiscoveredPeer,
    fullname: Seq<char>,
    hostname: Seq<char>,
    port: u16,
) -> bool {
    &&& p.fullname@ == fullname
    &&& p.port == port
    &&& p.host_label@.len() <= hostname.len()
    &&& hostname.take(p.host_label@.len() as int) == p.host_label@
    &&& forall|k: int|
        p.host_label@.len() <= k < hostname.len() ==> #[trigger] hostname[k] == '.'
    &&& p.host_label@.len() > 0 ==> p.host_label@[p.host_label@.len() - 1] != '.'
}

proof fn lemma_entry(p: DiscoveredPeer, fullname: Seq<char>, hostname: Seq<char>, port: u16)
    requires
        p@ == peer_of(fullname, hostname, port),
    ensures
        entry_for(p, fullname, hostname, port),
{
    reveal_strlit(".");
    lemma_strip_back(hostname, "."@);
    let label = p.host_label@;
    assert forall|k: int| label.len() <= k < hostname.len() implies #[trigger] hostname[k]
        == '.' by {
        assert(hostname[k] == "."@[(k - label.len()) % 1]);
        assert((k - label.len()) % 1 == 0);
    }
    if label.len() > 0 && label[label.len() - 1] == '.' {
        assert(stands_at(label, "."@, label.len() - 1));
    }
}

/// An answer is noted: there is an entry for it, with the full name, the host without the
/// dots at its end, and the port that it gave. It is in the place of an earlier entry of
/// that full name, or else at the end, and all other entries stay as they are and where
/// they are. The search is over exactly if it was or only the first answer is wanted.
pub proof fn law_answer_is_noted_once(
    b: &mut Browser,
    fullname: &str,
    hostname: &str,
    port: u16,
)
    requires
        call_ensures(browse, (b, BrowseEvent::Resolved { fullname, hostname, port }), ()),
    ensures
        ({
            let old_peers = old(b).peers@;
            let new_peers = final(b).peers@;
            let known = exists|i: int|
                0 <= i < old_peers.len() && (#[trigger] old_peers[i]).fullname@ == fullname@;
            &&& new_peers.len() == old_peers.len() + if known {
                0int
            } else {
                1
            }
            &&& exists|k: int|
                {
                    &&& 0 <= k < new_peers.len()
                    &&& !known ==> k == old_peers.len()
                    &&& known ==> old_peers[k].fullname@ == fullname@
                    &&& entry_for(#[trigger] new_peers[k], fullname@, hostname@, port)
                    &&& forall|j: int|
                        0 <= j < old_peers.len() && j != k ==> (#[trigger] new_peers[j])@
                            == old_peers[j]@
                }
        }),
        final(b).done <==> old(b).done || !old(b).wait_for_more,
        final(b).wait_for_more == old(b).wait_for_more,
{
    let was = peer_views(old(b).peers@);
    let now = peer_views(final(b).peers@);
    let p = peer_of(fullname@, hostname@, port);
    assert(was.len() == old(b).peers@.len() && now.len() == final(b).peers@.len());
    assert(now == noted(was, p));
    lemma_place(was, fullname@);
    let k = place_of(was, fullname@);
    assert forall|i: int| 0 <= i < was.len() implies was[i].fullname == (
    #[trigger] old(b).peers@[i]).fullname@ by {
        assert(was[i] == old(b).peers@[i]@);
    }
    if k < was.len() {
        assert(old(b).peers@[k].fullname@ == fullname@);
    } else {
        assert forall|i: int| 0 <= i < was.len() implies (#[trigger] old(b).peers@[i]).fullname@
            != fullname@ by {
            assert(was[i].fullname != fullname@);
        }
    }
    assert(now[k] == p);
    assert(final(b).peers@[k]@ == p);
    lemma_entry(final(b).peers@[k], fullname@, hostname@, port);
    assert forall|j: int| 0 <= j < old(b).peers@.len() && j != k implies (
    #[trigger] final(b).peers@[j])@ == old(b).peers@[j]@ by {
        assert(now[j] == was[j]);
        assert(now[j] == final(b).peers@[j]@ && was[j] == old(b).peers@[j]@);
    }
}

/// What is of no interest changes nothing.
pub proof fn law_other_events_change_nothing(b: &mut Browser)
    requires
        call_ensures(browse, (b, BrowseEvent::Other), ()),
    ensures
        *final(b) == *old(b),
{
}

/// The search waits while there is time and it is not over, never longer than the time
/// that is left nor than 150 milliseconds.
pub proof fn law_search_waits_while_there_is_time(b: &Browser, left: u128, r: Option<u128>)
    requires
        call_ensures(Browser::next_wait, (b, left), r),
    ensures
        r is None <==> b.done || left == 0,
        r matches Some(ns) ==> 0 < ns <= left && ns <= 150_000_000 && (ns < left ==> ns
            == 150_000_000),
{
}

/// A receiver is connected to without asking exactly if it is the only one that answered.
pub proof fn law_only_answer_is_taken(found: usize, r: PeerChoice)
    requires
        call_ensures(choose_peer, (found,), r),
    ensures
        r is Nobody <==> found == 0,
        r is One <==> found == 1,
        r is Several <==> found > 1,
{
}

/// A receiver publishes the name of its machine, or else a fixed one, at its port; and
/// its host is that name in the domain `.local`, which is not doubled where the name
/// already ends with it.
pub proof fn law_receiver_publishes_its_machine(
    host: Option<String>,
    port: u16,
    reg: ServiceRegistration,
    short: Seq<char>,
)
    requires
        call_ensures(ServiceRegistration::on_host, (host, port), reg),
        !stands_at(short, ".local"@, short.len() - 6),
    ensures
        reg.port == port,
        host matches Some(h) ==> reg.instance@ == h@,
        host is None ==> reg.instance@ == "rpi-camilla-bridge"@,
        reg.instance@ == short || reg.instance@ == short + ".local"@ ==> reg.host_name@ == short
            + ".local."@,
        exists|h: Seq<char>|
            {
                &&& reg.host_name@ == #[trigger] (h + ".local."@)
                &&& h.len() <= reg.instance@.len() && reg.instance@.take(h.len() as int) == h
                &&& !stands_at(h, ".local"@, h.len() - 6)
                &&& (reg.instance@.len() - h.len()) % 6 == 0
                &&& forall|k: int|
                    h.len() <= k < reg.instance@.len() ==> #[trigger] reg.instance@[k]
                        == ".local"@[(k - h.len()) % 6]
            },
{
    reveal_strlit(".local");
    lemma_strip_back_once(short, ".local"@);
    lemma_strip_back(reg.instance@, ".local"@);
    let h = strip_back(reg.instance@, ".local"@);
    assert(reg.host_name@ == h + ".local."@);
}

/// The service is found under one type, and tells the version of the program and that of
/// the protocol.
pub proof fn law_service_tells_its_versions(
    kind: &'static str,
    version: &str,
    r: Vec<(String, String)>,
)
    requires
        call_ensures(service_type, (), kind),
        call_ensures(properties, (version,), r),
    ensures
        kind@ == "_camilla-bridge._tcp.local."@,
        r@.len() == 2,
        r@[0].0@ == "version"@ && r@[0].1@ == version@,
        r@[1].0@ == "proto"@ && r@[1].1@ == "1"@,
{
    let v = pair_views(r@);
    assert(v.len() == r@.len());
    assert(v[0] == (r@[0].0@, r@[0].1@));
    assert(v[1] == (r@[1].0@, r@[1].1@));
}

/// A receiver publishes the machine that it runs on, or a fixed name where that has none
/// to show, at its port.
pub proof fn law_receiver_publishes_this_machine(port: u16, reg: ServiceRegistration)
    requires
        call_ensures(ServiceRegistration::try_register, (port,), reg),
    ensures
        reg.port == port,
        exists|host: Option<String>|
            {
                &&& #[trigger] host_read(host)
                &&& host matches Some(h) ==> reg.instance@ == h@
                &&& host is None ==> reg.instance@ == "rpi-camilla-bridge"@
            },
        stands_at(reg.host_name@, ".local."@, reg.host_name@.len() - ".local."@.len()),
{
    let host = choose|host: Option<String>| #[trigger]
        host_read(host) && registers(name_in(host), port, reg);
    assert(host_read(host));
}

} // verus!
