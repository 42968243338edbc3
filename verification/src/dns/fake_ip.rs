//! Fake addresses that stand for host names.

use vstd::prelude::*;
use vstd::set_lib::*;

use crate::ip;
use crate::ip::Ip;
use crate::text;
use crate::utils;

verus! {

/// The smallest number of a fake address.
pub const FIRST: u32 = 4;

/// The largest number of a fake address.
pub const LAST: u32 = 0xFFFE;

/// How many names have an address at a time.
pub const MAX: usize = 8192;

/// How many numbers are tried for a new name.
pub const TRIES: u32 = 65530;

/// The address of a number: 198.18 and the number in two octets.
pub open spec fn numbered_ip(n: int) -> Seq<u8> {
    seq![198u8, 18u8, (n / 256) as u8, (n % 256) as u8]
}

/// The number of an address in 198.18.0.0/16.
pub open spec fn ip_number(o: Seq<u8>) -> Option<int> {
    if o[0] == 198 && o[1] == 18 {
        Some(o[2] as int * 256 + o[3] as int)
    } else {
        None
    }
}

/// Whether an address can be a fake one.
pub open spec fn fake(o: Seq<u8>) -> bool {
    ip_number(o) is Some && ip_number(o)->0 >= FIRST
}

/// Numbers whose last octet is not the first or last of its block.
pub open spec fn usable(n: int) -> bool {
    n % 256 != 0 && n % 256 != 255
}

/// The number behind another one; the last is followed by the first.
pub open spec fn after(n: int) -> int {
    if n + 1 > LAST {
        FIRST as int
    } else {
        n + 1
    }
}

/// The names with their numbers, the one that was used last first, and the
/// number that is tried next.
#[verifier::ext_equal]
pub struct PoolView {
    pub entries: Seq<(Seq<char>, int)>,
    pub next: int,
}

/// The position of a name, from position `i` on.
pub open spec fn name_from(e: Seq<(Seq<char>, int)>, host: Seq<char>, i: int) -> Option<int>
    decreases e.len() - i,
{
    if i >= e.len() {
        None
    } else if e[i].0 == host {
        Some(i)
    } else {
        name_from(e, host, i + 1)
    }
}

/// The position of a number, from position `i` on.
pub open spec fn number_from(e: Seq<(Seq<char>, int)>, n: int, i: int) -> Option<int>
    decreases e.len() - i,
{
    if i >= e.len() {
        None
    } else if e[i].1 == n {
        Some(i)
    } else {
        number_from(e, n, i + 1)
    }
}

/// The entries with the one at `i` moved to the front.
pub open spec fn to_front(e: Seq<(Seq<char>, int)>, i: int) -> Seq<(Seq<char>, int)> {
    seq![e[i]] + e.remove(i)
}

/// Whether a number can be given out.
pub open spec fn free(e: Seq<(Seq<char>, int)>, busy: Seq<Seq<u8>>, n: int) -> bool {
    usable(n) && number_from(e, n, 0) is None && !busy.contains(numbered_ip(n))
}

/// The first free number among `tries` numbers from `n` on, and the number
/// that follows the last one tried.
pub open spec fn search(
    e: Seq<(Seq<char>, int)>,
    busy: Seq<Seq<u8>>,
    n: int,
    tries: nat,
) -> (Option<int>, int)
    decreases tries,
{
    if tries == 0 {
        (None, n)
    } else if free(e, busy, n) {
        (Some(n), after(n))
    } else {
        search(e, busy, after(n), (tries - 1) as nat)
    }
}

impl PoolView {
    /// The entries, without the one that was not used for longest where there
    /// are too many.
    pub open spec fn room(self) -> Seq<(Seq<char>, int)> {
        if self.entries.len() >= MAX {
            self.entries.drop_last()
        } else {
            self.entries
        }
    }

    /// The number of a name and the pool after the lookup: a known name keeps
    /// its number and moves to the front; a new one gets the next free number.
    pub open spec fn looked_up(self, host: Seq<char>, busy: Seq<Seq<u8>>) -> (int, PoolView) {
        match name_from(self.entries, host, 0) {
            Some(i) => (
                self.entries[i].1,
                PoolView { entries: to_front(self.entries, i), next: self.next },
            ),
            None => {
                let room = self.room();
                let (found, next) = search(room, busy, self.next, TRIES as nat);
                match found {
                    Some(n) => (n, PoolView { entries: seq![(host, n)] + room, next }),
                    None => (FIRST as int, PoolView { entries: room, next }),
                }
            },
        }
    }

    /// The name of an address and the pool after the lookup, which moves the
    /// name to the front.
    pub open spec fn looked_back(self, o: Seq<u8>) -> (Option<Seq<char>>, PoolView) {
        match ip_number(o) {
            None => (None, self),
            Some(n) => match number_from(self.entries, n, 0) {
                None => (None, self),
                Some(i) => (
                    Some(self.entries[i].0),
                    PoolView { entries: to_front(self.entries, i), next: self.next },
                ),
            },
        }
    }

    /// No name and no number is there twice; the numbers are usable ones.
    pub open spec fn wf(self) -> bool {
        &&& self.entries.len() <= MAX
        &&& FIRST <= self.next <= LAST
        &&& forall|i: int, j: int|
            0 <= i < j < self.entries.len() ==> (#[trigger] self.entries[i]).0 != (
            #[trigger] self.entries[j]).0 && self.entries[i].1 != self.entries[j].1
        &&& forall|i: int|
            0 <= i < self.entries.len() ==> FIRST <= (#[trigger] self.entries[i]).1 <= LAST
                && usable(self.entries[i].1)
    }
}

/// Gives out fake addresses for host names and finds the names again.
pub struct FakeIpPool {
    pub entries: Vec<(Vec<char>, u32)>,
    pub next: u32,
}

impl View for FakeIpPool {
    type V = PoolView;

    open spec fn view(&self) -> PoolView {
        PoolView {
            entries: Seq::new(
                self.entries@.len(),
                |i: int| (self.entries@[i].0@, self.entries@[i].1 as int),
            ),
            next: self.next as int,
        }
    }
}

/// The octets of a list of addresses.
pub open spec fn octets(v: Seq<[u8; 4]>) -> Seq<Seq<u8>> {
    Seq::new(v.len(), |i: int| v[i]@)
}

/// The address that DNS queries of the virtual interface go to: 198.18.0.2.
pub fn dns_address() -> (r: [u8; 4])
    ensures
        r@ == seq![198u8, 18u8, 0u8, 2u8],
{
    let r: [u8; 4] = [198, 18, 0, 2];
    assert(r@ =~= seq![198u8, 18u8, 0u8, 2u8]);
    r
}

fn ip_of_number(n: u32) -> (r: [u8; 4])
    requires
        n <= 0xFFFF,
    ensures
        r@ == numbered_ip(n as int),
{
    let r: [u8; 4] = [198, 18, (n / 256) as u8, (n % 256) as u8];
    assert(r@ =~= numbered_ip(n as int));
    r
}

impl FakeIpPool {
    pub fn new() -> (r: Self)
        ensures
            r@.entries == Seq::<(Seq<char>, int)>::empty(),
            r@.next == FIRST,
            r@.wf(),
    {
        let r = FakeIpPool { entries: Vec::new(), next: FIRST };
        assert(r@.entries =~= Seq::<(Seq<char>, int)>::empty());
        r
    }

    pub fn is_fake_ip(ip: Ip) -> (r: bool)
        ensures
            r == (match ip {
                Ip::V4(o) => fake(o@),
                Ip::V6(_) => false,
            }),
    {
        match ip {
            Ip::V4(o) => o[0] == 198 && o[1] == 18 && o[2] as u32 * 256 + o[3] as u32 >= FIRST,
            Ip::V6(_) => false,
        }
    }

    pub fn is_fake_ip_v4(ip: [u8; 4]) -> (r: bool)
        ensures
            r == fake(ip@),
    {
        Self::is_fake_ip(Ip::V4(ip))
    }

    fn find_name(&self, host: &[char]) -> (r: Option<usize>)
        ensures
            match r {
                Some(i) => name_from(self@.entries, host@, 0) == Some(i as int) && i
                    < self.entries@.len(),
                None => name_from(self@.entries, host@, 0) is None,
            },
    {
        let mut i: usize = 0;
        while i < self.entries.len()
            invariant
                i <= self.entries@.len(),
                name_from(self@.entries, host@, 0) == name_from(self@.entries, host@, i as int),
            decreases self.entries@.len() - i,
        {
            if text::same(self.entries[i].0.as_slice(), host) {
                return Some(i);
            }
            i += 1;
        }
        None
    }

    fn find_number(&self, n: u32) -> (r: Option<usize>)
        ensures
            match r {
                Some(i) => number_from(self@.entries, n as int, 0) == Some(i as int) && i
                    < self.entries@.len(),
                None => number_from(self@.entries, n as int, 0) is None,
            },
    {
        let mut i: usize = 0;
        while i < self.entries.len()
            invariant
                i <= self.entries@.len(),
                number_from(self@.entries, n as int, 0) == number_from(
                    self@.entries,
                    n as int,
                    i as int,
                ),
            decreases self.entries@.len() - i,
        {
            if self.entries[i].1 == n {
                return Some(i);
            }
            i += 1;
        }
        None
    }

    fn touch(&mut self, i: usize)
        requires
            i < old(self).entries@.len(),
        ensures
            final(self)@ == (PoolView {
                entries: to_front(old(self)@.entries, i as int),
                next: old(self)@.next,
            }),
    {
        let ghost before = self@.entries;
        let e = self.entries.remove(i);
        assert(self@.entries =~= before.remove(i as int));
        let ghost rest = self@.entries;
        self.entries.insert(0, e);
        assert(self@.entries =~= seq![before[i as int]] + rest);
    }

    /// The address of a host name.
    pub fn lookup(&mut self, host: &str) -> (r: [u8; 4])
        requires
            old(self)@.wf(),
        ensures
            final(self)@.wf(),
            ({
                let (n, p) = old(self)@.looked_up(utils::ascii_host(host@), Seq::empty());
                r@ == numbered_ip(n) && final(self)@ == p
            }),
    {
        let busy: Vec<[u8; 4]> = Vec::new();
        assert(octets(busy@) =~= Seq::<Seq<u8>>::empty());
        self.lookup_avoiding(host, busy.as_slice())
    }

    /// The address of a host name; a new name gets none of the busy addresses.
    pub fn lookup_avoiding(&mut self, host: &str, busy: &[[u8; 4]]) -> (r: [u8; 4])
        requires
            old(self)@.wf(),
        ensures
            final(self)@.wf(),
            ({
                let (n, p) = old(self)@.looked_up(utils::ascii_host(host@), octets(busy@));
                r@ == numbered_ip(n) && final(self)@ == p
            }),
    {
        let name = utils::domain_to_ascii(host);
        let name = text::chars_of(name.as_str());
        self.lookup_name(name, busy)
    }

    /// The address of a host name in its ASCII form.
    pub fn lookup_name(&mut self, host: Vec<char>, busy: &[[u8; 4]]) -> (r: [u8; 4])
        requires
            old(self)@.wf(),
        ensures
            final(self)@.wf(),
            ({
                let (n, p) = old(self)@.looked_up(host@, octets(busy@));
                r@ == numbered_ip(n) && final(self)@ == p
            }),
    {
        let ghost start = self@;
        let ghost bs = octets(busy@);
        proof {
            lemma_lookup_wf(start, host@, bs);
        }
        if let Some(i) = self.find_name(host.as_slice()) {
            let n: u32 = self.entries[i].1;
            proof {
                assert(start.entries[i as int].1 == n);
                lemma_numbers_in_range(start, i as int);
            }
            self.touch(i);
            return ip_of_number(n);
        }
        if self.entries.len() >= MAX {
            let _ = self.entries.pop();
        }
        assert(self@.entries =~= start.room());
        let ghost room = self@.entries;
        let mut tries: u32 = TRIES;
        let ghost goal = search(room, bs, start.next, TRIES as nat);
        while tries > 0
            invariant
                tries <= TRIES,
                start == old(self)@,
                bs == octets(busy@),
                self@.entries == room,
                FIRST <= self.next <= LAST,
                goal == search(room, bs, self@.next, tries as nat),
                start.looked_up(host@, bs) == (match goal.0 {
                    Some(n) => (
                        n,
                        PoolView { entries: seq![(host@, n)] + room, next: goal.1 },
                    ),
                    None => (FIRST as int, PoolView { entries: room, next: goal.1 }),
                }),
                start.looked_up(host@, bs).1.wf(),
            decreases tries,
        {
            let n: u32 = self.next;
            let ip = ip_of_number(n);
            self.next = if n + 1 > LAST {
                FIRST
            } else {
                n + 1
            };
            tries -= 1;
            let ok = n % 256 != 0 && n % 256 != 255 && self.find_number(n).is_none()
                && !contains_ip(busy, ip);
            assert(self@.entries =~= room);
            assert(ok == free(room, bs, n as int));
            if ok {
                self.entries.insert(0, (host, n));
                assert(self@.entries =~= seq![(host@, n as int)] + room);
                return ip;
            }
        }
        ip_of_number(FIRST)
    }

    /// The host name of a fake address.
    pub fn lookback(&mut self, ip: [u8; 4]) -> (r: Option<String>)
        requires
            old(self)@.wf(),
        ensures
            final(self)@.wf(),
            (text::opt_view(r), final(self)@) == old(self)@.looked_back(ip@),
    {
        let ghost start = self@;
        if ip[0] != 198 || ip[1] != 18 {
            return None;
        }
        let n: u32 = ip[2] as u32 * 256 + ip[3] as u32;
        match self.find_number(n) {
            None => None,
            Some(i) => {
                let host = text::string_of(self.entries[i].0.as_slice());
                proof {
                    lemma_front_wf(start, i as int);
                }
                self.touch(i);
                Some(host)
            },
        }
    }
}

fn contains_ip(v: &[[u8; 4]], ip: [u8; 4]) -> (r: bool)
    ensures
        r == octets(v@).contains(ip@),
{
    let mut i: usize = 0;
    while i < v.len()
        invariant
            i <= v@.len(),
            forall|j: int| 0 <= j < i ==> octets(v@)[j] != ip@,
        decreases v@.len() - i,
    {
        if ip::same_ipv4(v[i], ip) {
            assert(octets(v@)[i as int] == ip@);
            return true;
        }
        i += 1;
    }
    false
}

// ---- what the operations keep ----
proof fn lemma_name_from(e: Seq<(Seq<char>, int)>, host: Seq<char>, i: int)
    requires
        0 <= i,
    ensures
        match name_from(e, host, i) {
            Some(j) => i <= j < e.len() && e[j].0 == host && (forall|k: int|
                i <= k < j ==> (#[trigger] e[k]).0 != host),
            None => forall|k: int| i <= k < e.len() ==> (#[trigger] e[k]).0 != host,
        },
    decreases e.len() - i,
{
    if i < e.len() && e[i].0 != host {
        lemma_name_from(e, host, i + 1);
    }
}

proof fn lemma_number_from(e: Seq<(Seq<char>, int)>, n: int, i: int)
    requires
        0 <= i,
    ensures
        match number_from(e, n, i) {
            Some(j) => i <= j < e.len() && e[j].1 == n && (forall|k: int|
                i <= k < j ==> (#[trigger] e[k]).1 != n),
            None => forall|k: int| i <= k < e.len() ==> (#[trigger] e[k]).1 != n,
        },
    decreases e.len() - i,
{
    if i < e.len() && e[i].1 != n {
        lemma_number_from(e, n, i + 1);
    }
}

proof fn lemma_numbers_in_range(p: PoolView, i: int)
    requires
        p.wf(),
        0 <= i < p.entries.len(),
    ensures
        FIRST <= p.entries[i].1 <= LAST,
{
}

proof fn lemma_front_wf(p: PoolView, i: int)
    requires
        p.wf(),
        0 <= i < p.entries.len(),
    ensures
        (PoolView { entries: to_front(p.entries, i), next: p.next }).wf(),
{
    let e = to_front(p.entries, i);
    assert forall|a: int| 0 <= a < e.len() implies (#[trigger] e[a]) == p.entries[if a == 0 {
        i
    } else if a <= i {
        a - 1
    } else {
        a
    }] by {}
    assert forall|a: int, b: int| 0 <= a < b < e.len() implies (#[trigger] e[a]).0 != (
    #[trigger] e[b]).0 && e[a].1 != e[b].1 by {
        let x = if a == 0 {
            i
        } else if a <= i {
            a - 1
        } else {
            a
        };
        let y = if b <= i {
            b - 1
        } else {
            b
        };
        assert(e[a] == p.entries[x] && e[b] == p.entries[y]);
        assert(x != y);
        if x < y {
        } else {
            assert(p.entries[y].0 != p.entries[x].0);
        }
    }
}

proof fn lemma_search(e: Seq<(Seq<char>, int)>, busy: Seq<Seq<u8>>, n: int, tries: nat)
    requires
        FIRST <= n <= LAST,
    ensures
        ({
            let (found, next) = search(e, busy, n, tries);
            &&& FIRST <= next <= LAST
            &&& found is Some ==> FIRST <= found->0 <= LAST && free(e, busy, found->0)
        }),
    decreases tries,
{
    if tries > 0 && !free(e, busy, n) {
        lemma_search(e, busy, after(n), (tries - 1) as nat);
    }
}

proof fn lemma_lookup_wf(p: PoolView, host: Seq<char>, busy: Seq<Seq<u8>>)
    requires
        p.wf(),
    ensures
        p.looked_up(host, busy).1.wf(),
{
    lemma_name_from(p.entries, host, 0);
    match name_from(p.entries, host, 0) {
        Some(i) => lemma_front_wf(p, i),
        None => {
            let room = p.room();
            lemma_search(room, busy, p.next, TRIES as nat);
            let (found, next) = search(room, busy, p.next, TRIES as nat);
            if let Some(n) = found {
                lemma_number_from(room, n, 0);
                let e = seq![(host, n)] + room;
                assert forall|a: int| 1 <= a < e.len() implies #[trigger] e[a] == p.entries[a
                    - 1] by {}
                assert forall|a: int, b: int| 0 <= a < b < e.len() implies (#[trigger] e[a]).0 != (
                #[trigger] e[b]).0 && e[a].1 != e[b].1 by {
                    assert(e[b] == room[b - 1]);
                    if a > 0 {
                        assert(e[a] == room[a - 1]);
                    }
                }
            }
        },
    }
}

// ---- laws ----
/// The number of an address leads back to the number.
pub proof fn law_number_of_ip(n: int)
    requires
        0 <= n < 0x1_0000,
    ensures
        ip_number(numbered_ip(n)) == Some(n),
{
}

/// A known name keeps its address, whatever is busy.
pub proof fn law_lookup_is_stable(
    p: PoolView,
    host: Seq<char>,
    busy: Seq<Seq<u8>>,
    later: Seq<Seq<u8>>,
)
    requires
        p.wf(),
        search(p.room(), busy, p.next, TRIES as nat).0 is Some || name_from(
            p.entries,
            host,
            0,
        ) is Some,
    ensures
        p.looked_up(host, busy).1.looked_up(host, later).0 == p.looked_up(host, busy).0,
{
    let q = p.looked_up(host, busy).1;
    lemma_name_from(p.entries, host, 0);
    assert(q.entries[0].0 == host);
    lemma_name_from(q.entries, host, 0);
}

/// The address that a name was given leads back to the name.
pub proof fn law_lookup_leads_back(p: PoolView, host: Seq<char>, busy: Seq<Seq<u8>>)
    requires
        p.wf(),
        search(p.room(), busy, p.next, TRIES as nat).0 is Some || name_from(
            p.entries,
            host,
            0,
        ) is Some,
    ensures
        ({
            let (n, q) = p.looked_up(host, busy);
            q.looked_back(numbered_ip(n)).0 == Some(host)
        }),
{
    let (n, q) = p.looked_up(host, busy);
    lemma_lookup_wf(p, host, busy);
    lemma_name_from(p.entries, host, 0);
    lemma_search(p.room(), busy, p.next, TRIES as nat);
    assert(q.entries[0] == (host, n));
    lemma_number_from(q.entries, n, 0);
    law_number_of_ip(n);
}

/// Looking an address back changes no address.
pub proof fn law_lookback_keeps_addresses(p: PoolView, o: Seq<u8>, host: Seq<char>)
    requires
        p.wf(),
        name_from(p.entries, host, 0) is Some,
    ensures
        ({
            let q = p.looked_back(o).1;
            q.looked_up(host, Seq::empty()).0 == p.looked_up(host, Seq::empty()).0
        }),
{
    let q = p.looked_back(o).1;
    lemma_name_from(p.entries, host, 0);
    let i = name_from(p.entries, host, 0)->0;
    if ip_number(o) is Some && number_from(p.entries, ip_number(o)->0, 0) is Some {
        let n = ip_number(o)->0;
        lemma_number_from(p.entries, n, 0);
        let k = number_from(p.entries, n, 0)->0;
        lemma_front_wf(p, k);
        let at = if i == k {
            0
        } else if i < k {
            i + 1
        } else {
            i
        };
        assert(q.entries[at] == p.entries[i]);
        lemma_name_from(q.entries, host, 0);
    }
}

/// All addresses that are given out are fake ones, end in neither 0 nor 255,
/// and differ from the address of the resolver.
pub proof fn law_given_addresses(p: PoolView, i: int)
    requires
        p.wf(),
        0 <= i < p.entries.len(),
    ensures
        fake(numbered_ip(p.entries[i].1)),
        numbered_ip(p.entries[i].1)[3] != 0,
        numbered_ip(p.entries[i].1)[3] != 255,
        numbered_ip(p.entries[i].1) != seq![198u8, 18u8, 0u8, 2u8],
{
    let n = p.entries[i].1;
    law_number_of_ip(n);
    assert(numbered_ip(n)[3] == n % 256);
    law_number_of_ip(2);
    assert(numbered_ip(2) =~= seq![198u8, 18u8, 0u8, 2u8]);
}

/// One of many usable numbers, by a counter.
spec fn sample(j: int) -> int {
    256 * (1 + j / 250) + 1 + j % 250
}

/// The number that is tried `k` steps behind `n`.
spec fn step(n: int, k: int) -> int {
    if n + k <= LAST {
        n + k
    } else {
        n + k - LAST + FIRST - 1
    }
}

proof fn lemma_search_fails(
    e: Seq<(Seq<char>, int)>,
    busy: Seq<Seq<u8>>,
    n: int,
    tries: nat,
    k: int,
)
    requires
        FIRST <= n <= LAST,
        search(e, busy, n, tries).0 is None,
        0 <= k < tries <= TRIES,
    ensures
        !free(e, busy, step(n, k)),
    decreases tries,
{
    if k > 0 {
        lemma_search_fails(e, busy, after(n), (tries - 1) as nat, k - 1);
    }
}

proof fn lemma_taken_bound(e: Seq<(Seq<char>, int)>, busy: Seq<Seq<u8>>, m: int)
    requires
        0 <= m <= 60000,
        forall|j: int| 0 <= j < m ==> !free(e, busy, #[trigger] sample(j)),
    ensures
        m <= e.len() + busy.len(),
{
    let range = set_int_range(0, m);
    lemma_int_range(0, m);
    let image = range.map(|j: int| sample(j));
    let f = |j: int| sample(j);
    assert forall|a: int, b: int| range.contains(a) && range.contains(b) && #[trigger] f(a)
        == #[trigger] f(b) implies a == b by {
        lemma_sample(a);
        lemma_sample(b);
    }
    assert(image =~= range.map(f));
    lemma_map_size(range, image, f);
    let nums = Seq::new(e.len(), |i: int| e[i].1);
    let nb = Seq::new(busy.len(), |i: int| ip_number(busy[i])->0);
    let all = nums + nb;
    assert forall|x: int| image.contains(x) implies all.to_set().contains(x) by {
        let j = choose|j: int| range.contains(j) && f(j) == x;
        lemma_sample(j);
        assert(!free(e, busy, sample(j)));
        if number_from(e, x, 0) is Some {
            lemma_number_from(e, x, 0);
            let i = number_from(e, x, 0)->0;
            assert(all[i] == x);
        } else {
            assert(busy.contains(numbered_ip(x)));
            let i = choose|i: int| 0 <= i < busy.len() && busy[i] == numbered_ip(x);
            law_number_of_ip(x);
            assert(nb[i] == x);
            assert(all[nums.len() + i] == nb[i]);
        }
    }
    all.lemma_cardinality_of_set();
    vstd::seq_lib::seq_to_set_is_finite(all);
    lemma_len_subset(image, all.to_set());
}

proof fn lemma_sample(j: int)
    requires
        0 <= j,
    ensures
        sample(j) / 256 == 1 + j / 250,
        sample(j) % 256 == 1 + j % 250,
        usable(sample(j)),
        j < 60000 ==> sample(j) < LAST,
        FIRST < sample(j),
        j == (sample(j) / 256 - 1) * 250 + (sample(j) % 256 - 1),
{
}

/// As long as few addresses are busy, a new name always gets one of its own.
pub proof fn law_lookup_finds_room(p: PoolView, busy: Seq<Seq<u8>>)
    requires
        p.wf(),
        busy.len() <= 50000,
    ensures
        search(p.room(), busy, p.next, TRIES as nat).0 is Some,
{
    let room = p.room();
    if search(room, busy, p.next, TRIES as nat).0 is None {
        let m = 60000int;
        // All numbers but the one before `next` are tried.
        let skipped = step(p.next, LAST - FIRST);
        assert forall|j: int| 0 <= j < m && sample(j) != skipped implies !free(
            room,
            busy,
            #[trigger] sample(j),
        ) by {
            lemma_sample(j);
            let x = sample(j);
            let k = if x >= p.next {
                x - p.next
            } else {
                x - p.next + (LAST - FIRST + 1)
            };
            assert(step(p.next, k) == x);
            assert(0 <= k < TRIES);
            lemma_search_fails(room, busy, p.next, TRIES as nat, k);
        }
        let busy2 = busy.push(numbered_ip(skipped));
        assert forall|j: int| 0 <= j < m implies !free(room, busy2, #[trigger] sample(j)) by {
            if sample(j) == skipped {
                assert(busy2[busy.len() as int] == numbered_ip(skipped));
            } else if busy.contains(numbered_ip(sample(j))) {
                let i = choose|i: int|
                    0 <= i < busy.len() && busy[i] == numbered_ip(sample(j));
                assert(busy2[i] == busy[i]);
            }
        }
        lemma_taken_bound(room, busy2, m);
    }
}

/// The addresses that are given out lie in 198.18.0.0/16, and their last two octets write
/// the number, the high one first.
pub proof fn law_address_of_number(n: int)
    requires
        0 <= n <= 0xFFFF,
    ensures
        numbered_ip(n).len() == 4,
        numbered_ip(n)[0] == 198,
        numbered_ip(n)[1] == 18,
        numbered_ip(n)[2] as int * 256 + numbered_ip(n)[3] as int == n,
        ip_number(numbered_ip(n)) == Some(n),
{
}

/// An address of any other block stands for no name.
pub proof fn law_other_blocks(p: PoolView, o: Seq<u8>)
    requires
        o.len() == 4,
        o[0] != 198 || o[1] != 18,
    ensures
        ip_number(o) is None,
        !fake(o),
        p.looked_back(o) == (None::<Seq<char>>, p),
{
}

/// The first and the last number of a block of 256 are not given out, nor are the first four
/// of all; behind the last number comes the first again.
pub proof fn law_numbers_that_are_given(n: int, e: Seq<(Seq<char>, int)>, busy: Seq<Seq<u8>>)
    requires
        4 <= n <= 0xFFFE,
    ensures
        n % 256 == 0 || n % 256 == 255 ==> !free(e, busy, n),
        n < 0xFFFE ==> after(n) == n + 1,
        after(0xFFFE) == 4,
        !fake(numbered_ip(3)) && fake(numbered_ip(4)),
{
}

/// A name that is looked up, or whose address is, becomes the one that was used last, and
/// the others stay in their order; where there is no room the one at the end goes.
pub proof fn law_last_used_is_first(p: PoolView, host: Seq<char>, busy: Seq<Seq<u8>>, i: int)
    requires
        p.wf(),
        0 <= i < p.entries.len(),
        name_from(p.entries, host, 0) == Some(i),
    ensures
        p.looked_up(host, busy).0 == p.entries[i].1,
        p.looked_up(host, busy).1.entries[0] == p.entries[i],
        p.looked_up(host, busy).1.entries.skip(1) == p.entries.remove(i),
        p.entries.len() == 8192 ==> p.room() == p.entries.take(8191),
        p.entries.len() < 8192 ==> p.room() == p.entries,
{
    assert(to_front(p.entries, i).skip(1) =~= p.entries.remove(i));
    assert(p.entries.drop_last() =~= p.entries.take(p.entries.len() - 1));
}

/// A new name stands in front of the others, with the first number from the next one on
/// that can be given out.
pub proof fn law_new_name_is_first(p: PoolView, host: Seq<char>, busy: Seq<Seq<u8>>)
    requires
        p.wf(),
        name_from(p.entries, host, 0) is None,
        free(p.room(), busy, p.next),
    ensures
        p.looked_up(host, busy).0 == p.next,
        p.looked_up(host, busy).1.entries == seq![(host, p.next)] + p.room(),
        p.next < 0xFFFE ==> p.looked_up(host, busy).1.next == p.next + 1,
        p.next == 0xFFFE ==> p.looked_up(host, busy).1.next == 4,
{
}

} // verus!
