use vstd::prelude::*;

use crate::interface::{
    en0, get_display_name, is_physical_interface, label, opt_chars, physical, wants_wifi_ssid,
};
use crate::sampler::{delta, rates, RateTable};
use crate::text::{has_prefix, lower_of, chars_of, starts_with};

verus! {

/// Cumulative byte counters of one interface, as the system reports them.
pub struct InterfaceCounters {
    pub name: String,
    pub total_received: u64,
    pub total_transmitted: u64,
}

/// One address of one interface, as the system reports it.
pub struct AddressEntry {
    pub name: String,
    /// The address in its usual text form.
    pub address: String,
    pub is_ipv4: bool,
    pub is_loopback: bool,
}

/// One shown interface of a poll.
pub struct NetworkInterface {
    pub name: String,
    pub display_name: String,
    pub ip_address: Option<String>,
    pub is_up: bool,
    pub download_speed: u64,
    pub upload_speed: u64,
    pub total_downloaded: u64,
    pub total_uploaded: u64,
}

/// The shown interfaces of a poll, with the sums of their rates.
pub struct NetworkInfo {
    pub interfaces: Vec<NetworkInterface>,
    pub total_download: u64,
    pub total_upload: u64,
    pub download_speed: u64,
    pub upload_speed: u64,
}

/// Bytes of memory not in use: `total - used`, or zero where `used` is larger.
pub fn available_memory(total: u64, used: u64) -> (r: u64)
    ensures
        r == delta(total, used),
{
    total.saturating_sub(used)
}

/// An IPv4 address that is neither loopback nor link-local.
pub open spec fn usable_address(e: AddressEntry) -> bool {
    &&& e.is_ipv4
    &&& !e.is_loopback
    &&& !has_prefix(e.address@, seq!['1', '6', '9', '.', '2', '5', '4', '.'])
    &&& !has_prefix(e.address@, seq!['f', 'e', '8', '0'])
}

/// The address shown for `name`: the last usable one listed for it.
pub open spec fn address_of(s: Seq<AddressEntry>, name: Seq<char>) -> Option<Seq<char>>
    decreases s.len(),
{
    if s.len() == 0 {
        None
    } else if s.last().name@ == name && usable_address(s.last()) {
        Some(s.last().address@)
    } else {
        address_of(s.drop_last(), name)
    }
}

fn is_usable_address(e: &AddressEntry) -> (r: bool)
    ensures
        r == usable_address(*e),
{
    if !e.is_ipv4 || e.is_loopback {
        return false;
    }
    let a = chars_of(e.address.as_str());
    !starts_with(a.as_slice(), &['1', '6', '9', '.', '2', '5', '4', '.']) && !starts_with(
        a.as_slice(),
        &['f', 'e', '8', '0'],
    )
}

/// The IPv4 address shown for the interface `name`, from the system's list of
/// addresses: loopback and link-local ones are left out, and where several
/// remain the last one listed is taken.
pub fn address_for(addresses: &Vec<AddressEntry>, name: &String) -> (r: Option<String>)
    ensures
        opt_chars(r) == address_of(addresses@, name@),
{
    let mut i: usize = addresses.len();
    assert(addresses@.take(i as int) =~= addresses@);
    while i > 0
        invariant
            i <= addresses@.len(),
            address_of(addresses@.take(i as int), name@) == address_of(addresses@, name@),
        decreases i,
    {
        let e = &addresses[i - 1];
        assert(addresses@.take(i as int).drop_last() =~= addresses@.take(i - 1));
        if e.name == *name && is_usable_address(e) {
            return Some(e.address.clone());
        }
        i = i - 1;
    }
    None
}

/// The counters of the shown interfaces, in the order given.
pub open spec fn physical_only(c: Seq<InterfaceCounters>) -> Seq<InterfaceCounters>
    decreases c.len(),
{
    if c.len() == 0 {
        Seq::empty()
    } else if physical(c.last().name@) {
        physical_only(c.drop_last()).push(c.last())
    } else {
        physical_only(c.drop_last())
    }
}

/// The table after recording each of `c` in turn.
pub open spec fn table_after(m: Map<Seq<char>, (u64, u64)>, c: Seq<InterfaceCounters>) -> Map<
    Seq<char>,
    (u64, u64),
>
    decreases c.len(),
{
    if c.len() == 0 {
        m
    } else {
        table_after(m, c.drop_last()).insert(
            c.last().name@,
            (c.last().total_received, c.last().total_transmitted),
        )
    }
}

/// What one shown interface of a poll holds, given its counters, the table as
/// it stood before it was sampled, the system's addresses and the Wi-Fi SSID.
pub open spec fn sample_of(
    x: NetworkInterface,
    c: InterfaceCounters,
    m: Map<Seq<char>, (u64, u64)>,
    addresses: Seq<AddressEntry>,
    ssid: Option<Seq<char>>,
) -> bool {
    &&& x.name@ == c.name@
    &&& x.display_name@ == label(c.name@, ssid)
    &&& opt_chars(x.ip_address) == address_of(addresses, c.name@)
    &&& x.is_up == (c.total_received > 0 || c.total_transmitted > 0)
    &&& (x.download_speed, x.upload_speed) == rates(
        m,
        c.name@,
        c.total_received,
        c.total_transmitted,
    )
    &&& x.total_downloaded == c.total_received
    &&& x.total_uploaded == c.total_transmitted
}

pub open spec fn sum_download(s: Seq<NetworkInterface>) -> int
    decreases s.len(),
{
    if s.len() == 0 {
        0
    } else {
        sum_download(s.drop_last()) + s.last().download_speed
    }
}

pub open spec fn sum_upload(s: Seq<NetworkInterface>) -> int
    decreases s.len(),
{
    if s.len() == 0 {
        0
    } else {
        sum_upload(s.drop_last()) + s.last().upload_speed
    }
}

proof fn lemma_sums_nonnegative(s: Seq<NetworkInterface>)
    ensures
        sum_download(s) >= 0,
        sum_upload(s) >= 0,
    decreases s.len(),
{
    if s.len() > 0 {
        lemma_sums_nonnegative(s.drop_last());
    }
}

/// `x`, or the largest `u64` where `x` is larger.
pub open spec fn capped(x: int) -> u64 {
    if x <= u64::MAX {
        x as u64
    } else {
        u64::MAX
    }
}


/// The shown counters are the physical ones of `c`: each is physical and
/// listed in `c`, and each physical entry of `c` is among them.
pub proof fn lemma_physical_only_members(c: Seq<InterfaceCounters>)
    ensures
        forall|k: int|
            0 <= k < physical_only(c).len() ==> physical((#[trigger] physical_only(c)[k]).name@)
                && exists|j: int| 0 <= j < c.len() && c[j] == physical_only(c)[k],
        forall|j: int|
            0 <= j < c.len() && physical((#[trigger] c[j]).name@) ==> exists|k: int|
                0 <= k < physical_only(c).len() && physical_only(c)[k] == c[j],
    decreases c.len(),
{
    if c.len() > 0 {
        let d = c.drop_last();
        lemma_physical_only_members(d);
        let pd = physical_only(d);
        let pc = physical_only(c);
        assert forall|k: int| 0 <= k < pc.len() implies physical((#[trigger] pc[k]).name@)
            && exists|j: int| 0 <= j < c.len() && c[j] == pc[k] by {
            if k < pd.len() {
                assert(pc[k] == pd[k]);
                let j = choose|j: int| 0 <= j < d.len() && d[j] == pd[k];
                assert(c[j] == d[j]);
            } else {
                assert(c[c.len() - 1] == pc[k]);
            }
        }
        assert forall|j: int| 0 <= j < c.len() && physical((#[trigger] c[j]).name@) implies exists|
            k: int,
        | 0 <= k < pc.len() && pc[k] == c[j] by {
            if j < d.len() {
                assert(d[j] == c[j]);
                let k = choose|k: int| 0 <= k < pd.len() && pd[k] == d[j];
                assert(pc[k] == pd[k]);
            } else {
                assert(pc[pd.len() as int] == c[j]);
            }
        }
    }
}

proof fn lemma_listed_are_physical(
    xs: Seq<NetworkInterface>,
    c: Seq<InterfaceCounters>,
    m0: Map<Seq<char>, (u64, u64)>,
    addresses: Seq<AddressEntry>,
    ssid: Option<Seq<char>>,
)
    requires
        xs.len() == physical_only(c).len(),
        forall|k: int|
            0 <= k < xs.len() ==> sample_of(
                #[trigger] xs[k],
                physical_only(c)[k],
                table_after(m0, physical_only(c).take(k)),
                addresses,
                ssid,
            ),
    ensures
        forall|k: int|
            0 <= k < xs.len() ==> physical((#[trigger] xs[k]).name@) && exists|j: int|
                0 <= j < c.len() && c[j].name@ == xs[k].name@,
        forall|j: int|
            0 <= j < c.len() && physical((#[trigger] c[j]).name@) ==> exists|k: int|
                0 <= k < xs.len() && xs[k].name@ == c[j].name@,
{
    let pc = physical_only(c);
    lemma_physical_only_members(c);
    assert forall|k: int| 0 <= k < xs.len() implies physical((#[trigger] xs[k]).name@) && exists|
        j: int,
    | 0 <= j < c.len() && c[j].name@ == xs[k].name@ by {
        assert(sample_of(xs[k], pc[k], table_after(m0, pc.take(k)), addresses, ssid));
        assert(physical(pc[k].name@));
        let j = choose|j: int| 0 <= j < c.len() && c[j] == pc[k];
        assert(c[j].name@ == xs[k].name@);
    }
    assert forall|j: int| 0 <= j < c.len() && physical((#[trigger] c[j]).name@) implies exists|
        k: int,
    | 0 <= k < xs.len() && xs[k].name@ == c[j].name@ by {
        let k = choose|k: int| 0 <= k < pc.len() && pc[k] == c[j];
        assert(sample_of(xs[k], pc[k], table_after(m0, pc.take(k)), addresses, ssid));
    }
}

fn copy_ssid(wifi_ssid: &Option<String>) -> (r: Option<String>)
    ensures
        opt_chars(r) == opt_chars(*wifi_ssid),
{
    match wifi_ssid {
        Some(s) => Some(s.clone()),
        None => None,
    }
}

/// The sampling loop of `collect_network`.
fn sample_interfaces(
    counters: &Vec<InterfaceCounters>,
    addresses: &Vec<AddressEntry>,
    wifi_ssid: &Option<String>,
    table: &mut RateTable,
) -> (r: NetworkInfo)
    requires
        old(table).wf(),
    ensures
        final(table).wf(),
        final(table)@ == table_after(old(table)@, physical_only(counters@)),
        r.interfaces@.len() == physical_only(counters@).len(),
        forall|k: int|
            0 <= k < r.interfaces@.len() ==> sample_of(
                #[trigger] r.interfaces@[k],
                physical_only(counters@)[k],
                table_after(old(table)@, physical_only(counters@).take(k)),
                addresses@,
                opt_chars(*wifi_ssid),
            ),
        r.total_download == capped(sum_download(r.interfaces@)),
        r.total_upload == capped(sum_upload(r.interfaces@)),
        r.download_speed == r.total_download,
        r.upload_speed == r.total_upload,
{
    let ghost m0 = table@;
    let mut interfaces: Vec<NetworkInterface> = Vec::new();
    let mut total_download: u64 = 0;
    let mut total_upload: u64 = 0;
    let mut i: usize = 0;
    while i < counters.len()
        invariant
            i <= counters@.len(),
            table.wf(),
            table@ == table_after(m0, physical_only(counters@.take(i as int))),
            interfaces@.len() == physical_only(counters@.take(i as int)).len(),
            forall|k: int|
                0 <= k < interfaces@.len() ==> sample_of(
                    #[trigger] interfaces@[k],
                    physical_only(counters@.take(i as int))[k],
                    table_after(m0, physical_only(counters@.take(i as int)).take(k)),
                    addresses@,
                    opt_chars(*wifi_ssid),
                ),
            total_download == capped(sum_download(interfaces@)),
            total_upload == capped(sum_upload(interfaces@)),
        decreases counters.len() - i,
    {
        let c = &counters[i];
        let ghost before = physical_only(counters@.take(i as int));
        assert(counters@.take(i + 1).drop_last() =~= counters@.take(i as int));
        assert(counters@.take(i + 1).last() == counters@[i as int]);
        if is_physical_interface(c.name.as_str()) {
            let ghost old_ifaces = interfaces@;
            let (download, upload): (u64, u64) = table.sample(&c.name, c.total_received, c.total_transmitted);
            let x = NetworkInterface {
                name: c.name.clone(),
                display_name: get_display_name(c.name.as_str(), copy_ssid(wifi_ssid)),
                ip_address: address_for(addresses, &c.name),
                is_up: c.total_received > 0 || c.total_transmitted > 0,
                download_speed: download,
                upload_speed: upload,
                total_downloaded: c.total_received,
                total_uploaded: c.total_transmitted,
            };
            interfaces.push(x);
            total_download = total_download.saturating_add(download);
            total_upload = total_upload.saturating_add(upload);
            proof {
                let after = physical_only(counters@.take(i + 1));
                assert(after == before.push(counters@[i as int]));
                assert(interfaces@.drop_last() =~= old_ifaces);
                assert(sum_download(interfaces@) == sum_download(old_ifaces) + download);
                assert(sum_upload(interfaces@) == sum_upload(old_ifaces) + upload);
                lemma_sums_nonnegative(old_ifaces);
                assert forall|k: int| 0 <= k < interfaces@.len() implies sample_of(
                    #[trigger] interfaces@[k],
                    after[k],
                    table_after(m0, after.take(k)),
                    addresses@,
                    opt_chars(*wifi_ssid),
                ) by {
                    if k < old_ifaces.len() {
                        assert(after.take(k) =~= before.take(k));
                        assert(interfaces@[k] == old_ifaces[k]);
                    } else {
                        assert(after.take(k) =~= before);
                    }
                }
                assert(after.drop_last() =~= before);
            }
        }
        i = i + 1;
    }
    assert(counters@.take(counters@.len() as int) =~= counters@);
    NetworkInfo {
        interfaces,
        total_download,
        total_upload,
        download_speed: total_download,
        upload_speed: total_upload,
    }
}

/// One poll of the network: each shown interface of `counters`, in order, with
/// its label, address, state and rates, sampled against `table`, which then
/// holds the new counters of every shown interface. The totals are the sums of
/// the rates, capped at the largest `u64`.
pub fn collect_network(
    counters: &Vec<InterfaceCounters>,
    addresses: &Vec<AddressEntry>,
    wifi_ssid: &Option<String>,
    table: &mut RateTable,
) -> (r: NetworkInfo)
    requires
        old(table).wf(),
    ensures
        final(table).wf(),
        final(table)@ == table_after(old(table)@, physical_only(counters@)),
        r.interfaces@.len() == physical_only(counters@).len(),
        forall|k: int|
            0 <= k < r.interfaces@.len() ==> sample_of(
                #[trigger] r.interfaces@[k],
                physical_only(counters@)[k],
                table_after(old(table)@, physical_only(counters@).take(k)),
                addresses@,
                opt_chars(*wifi_ssid),
            ),
        r.total_download == capped(sum_download(r.interfaces@)),
        r.total_upload == capped(sum_upload(r.interfaces@)),
        r.download_speed == r.total_download,
        r.upload_speed == r.total_upload,
        forall|k: int|
            0 <= k < r.interfaces@.len() ==> physical((#[trigger] r.interfaces@[k]).name@)
                && exists|j: int| 0 <= j < counters@.len() && counters@[j].name@ == r.interfaces@[k].name@,
        forall|j: int|
            0 <= j < counters@.len() && physical((#[trigger] counters@[j]).name@) ==> exists|k: int|
                0 <= k < r.interfaces@.len() && r.interfaces@[k].name@ == counters@[j].name@,
{
    let ghost m0 = table@;
    let r = sample_interfaces(counters, addresses, wifi_ssid, table);
    proof {
        lemma_listed_are_physical(r.interfaces@, counters@, m0, addresses@, opt_chars(*wifi_ssid));
    }
    r
}

impl RateTable {
    /// A table that holds the counters of every interface in `counters`, the
    /// later of two with one name winning.
    pub fn from_counters(counters: &Vec<InterfaceCounters>) -> (r: RateTable)
        ensures
            r.wf(),
            r@ == table_after(Map::empty(), counters@),
    {
        let mut table = RateTable::new();
        let mut i: usize = 0;
        while i < counters.len()
            invariant
                i <= counters@.len(),
                table.wf(),
                table@ == table_after(Map::empty(), counters@.take(i as int)),
            decreases counters.len() - i,
        {
            let c = &counters[i];
            table.record(&c.name, c.total_received, c.total_transmitted);
            assert(counters@.take(i + 1).drop_last() =~= counters@.take(i as int));
            i = i + 1;
        }
        assert(counters@.take(counters@.len() as int) =~= counters@);
        table
    }
}

/// Whether some shown interface of `counters` is labelled by the Wi-Fi SSID, so
/// that the SSID must be looked up before the poll.
pub fn needs_wifi_ssid(counters: &Vec<InterfaceCounters>) -> (r: bool)
    ensures
        r == exists|k: int|
            0 <= k < counters@.len() && physical((#[trigger] counters@[k]).name@) && lower_of(
                counters@[k].name@,
            ) == en0(),
{
    let mut i: usize = 0;
    while i < counters.len()
        invariant
            i <= counters@.len(),
            forall|k: int|
                0 <= k < i ==> !(physical((#[trigger] counters@[k]).name@) && lower_of(
                    counters@[k].name@,
                ) == en0()),
        decreases counters.len() - i,
    {
        let name = counters[i].name.as_str();
        if is_physical_interface(name) && wants_wifi_ssid(name) {
            return true;
        }
        i = i + 1;
    }
    false
}

/// Two polls in a row whose only shown interface is the same one (any number
/// of hidden interfaces may be listed beside it): the second poll's download
/// rate is what its received counter grew by since the first, and likewise for
/// upload.
pub proof fn lemma_two_polls_of_one_interface(
    m: Map<Seq<char>, (u64, u64)>,
    poll1: Seq<InterfaceCounters>,
    poll2: Seq<InterfaceCounters>,
    first: InterfaceCounters,
    second: InterfaceCounters,
)
    requires
        physical_only(poll1) == seq![first],
        physical_only(poll2) == seq![second],
        second.name@ == first.name@,
        first.total_received <= second.total_received,
        first.total_transmitted <= second.total_transmitted,
    ensures
        rates(
            table_after(table_after(m, physical_only(poll1)), physical_only(poll2).take(0)),
            second.name@,
            second.total_received,
            second.total_transmitted,
        ) == (
            (second.total_received - first.total_received) as u64,
            (second.total_transmitted - first.total_transmitted) as u64,
        ),
{
    let e = Seq::<InterfaceCounters>::empty();
    assert(seq![first].drop_last() =~= e);
    assert(seq![first].last() == first);
    assert(table_after(m, e) == m);
    assert(seq![second].take(0) =~= e);
    assert(table_after(m, seq![first]) == m.insert(
        first.name@,
        (first.total_received, first.total_transmitted),
    ));
}

} // verus!
