//! Network adapters: choosing the adapter whose traffic is tracked, and
//! listing the adapters, from the rows of the system's interface table.
use vstd::prelude::*;

verus! {

/// Operational status of an interface that is up.
pub const IF_OPER_STATUS_UP: i32 = 1;

/// One row of the system's interface table, as plain values.
pub struct InterfaceRow {
    /// Locally unique identifier; zero marks an unusable row.
    pub luid: u64,
    /// Operational status.
    pub oper_status: i32,
    pub in_octets: u64,
    pub out_octets: u64,
    pub transmit_link_speed: u64,
    /// The alias, UTF-16, possibly followed by a terminating zero and padding.
    pub alias: Vec<u16>,
    /// The description, UTF-16, possibly followed by a terminating zero and padding.
    pub description: Vec<u16>,
}

/// Counters of the adapter being tracked.
pub struct AdapterStats {
    pub name: String,
    pub bytes_received: u64,
    pub bytes_sent: u64,
    pub speed: u64,
    pub is_connected: bool,
}

/// One adapter as listed to the user.
pub struct AdapterInfo {
    pub name: String,
    pub description: String,
    pub is_connected: bool,
    pub speed: u64,
}

/// UTF-16 decoding: a unit that is not a surrogate half is its own code point,
/// a high half followed by a low half is the code point they encode, and any
/// other surrogate half becomes U+FFFD.
pub open spec fn utf16_decode(units: Seq<u16>) -> Seq<char>
    decreases units.len(),
{
    if units.len() == 0 {
        Seq::empty()
    } else {
        let u = units[0];
        if u < 0xD800 || u > 0xDFFF {
            seq![u as char] + utf16_decode(units.drop_first())
        } else if u <= 0xDBFF && units.len() >= 2 && 0xDC00 <= units[1] <= 0xDFFF {
            seq![(((u - 0xD800) * 0x400 + (units[1] - 0xDC00)) + 0x10000) as char] + utf16_decode(
                units.subrange(2, units.len() as int),
            )
        } else {
            seq!['\u{FFFD}'] + utf16_decode(units.drop_first())
        }
    }
}

/// `String::from_utf16_lossy`: decodes UTF-16, replacing invalid data with
/// U+FFFD. Claimed: the result is the decoding of the units.
#[verifier::external_body]
fn utf16_lossy(units: &Vec<u16>) -> (r: String)
    ensures
        r@ == utf16_decode(units@),
{
    String::from_utf16_lossy(units)
}

/// `n` is where the text of `s` ends: at its first zero unit, or at its end.
pub open spec fn nul_end(s: Seq<u16>, n: int) -> bool {
    &&& 0 <= n <= s.len()
    &&& forall|j: int| 0 <= j < n ==> #[trigger] s[j] != 0
    &&& n == s.len() || s[n] == 0
}

/// The text of a zero-terminated UTF-16 field.
pub open spec fn field_text(s: Seq<u16>, text: Seq<char>) -> bool {
    exists|n: int| nul_end(s, n) && text == utf16_decode(s.take(n))
}

/// The text of a zero-terminated UTF-16 field: the units before the first zero,
/// decoded.
pub fn interface_text(units: &Vec<u16>) -> (r: String)
    ensures
        field_text(units@, r@),
{
    let mut prefix: Vec<u16> = Vec::new();
    let mut i: usize = 0;
    while i < units.len() && units[i] != 0
        invariant
            i <= units@.len(),
            prefix@ == units@.take(i as int),
            forall|j: int| 0 <= j < i ==> #[trigger] units@[j] != 0,
        decreases units@.len() - i,
    {
        prefix.push(units[i]);
        i = i + 1;
        assert(prefix@ =~= units@.take(i as int));
    }
    let r = utf16_lossy(&prefix);
    assert(nul_end(units@, i as int));
    r
}

/// A row that describes a usable interface.
pub open spec fn usable(r: InterfaceRow) -> bool {
    r.luid != 0
}

/// A usable interface that is up.
pub open spec fn eligible(r: InterfaceRow) -> bool {
    usable(r) && r.oper_status == IF_OPER_STATUS_UP
}

/// Bytes received and sent together.
pub open spec fn traffic(r: InterfaceRow) -> int {
    r.in_octets + r.out_octets
}

/// Row `i` is the busiest connected interface: it has traffic, none has more,
/// and none before it has as much.
pub open spec fn busiest_at(rows: Seq<InterfaceRow>, i: int) -> bool {
    &&& 0 <= i < rows.len()
    &&& eligible(rows[i])
    &&& traffic(rows[i]) > 0
    &&& forall|j: int| 0 <= j < rows.len() && eligible(#[trigger] rows[j]) ==> traffic(rows[j]) <= traffic(rows[i])
    &&& forall|j: int| 0 <= j < i && eligible(#[trigger] rows[j]) ==> traffic(rows[j]) < traffic(rows[i])
}

/// The traffic sum of every usable row fits a `u64` (the selection adds the
/// two counters of each usable row).
pub open spec fn traffic_fits(rows: Seq<InterfaceRow>) -> bool {
    forall|j: int| 0 <= j < rows.len() && usable(#[trigger] rows[j]) ==> traffic(rows[j]) <= u64::MAX
}

/// The counters of the connected adapter with the most traffic (the first of
/// equals); an error when no connected adapter has any.
pub fn get_adapter_stats(rows: &Vec<InterfaceRow>) -> (r: Result<AdapterStats, String>)
    requires
        traffic_fits(rows@),
    ensures
        match r {
            Ok(s) => exists|i: int|
                #![trigger rows@[i]]
                busiest_at(rows@, i) && {
                    let row = rows@[i];
                    &&& field_text(row.alias@, s.name@)
                    &&& s.bytes_received == row.in_octets
                    &&& s.bytes_sent == row.out_octets
                    &&& s.speed == row.transmit_link_speed
                    &&& s.is_connected
                },
            Err(e) => e@ == "No active network adapter found"@ && forall|j: int|
                0 <= j < rows@.len() && eligible(#[trigger] rows@[j]) ==> traffic(rows@[j]) == 0,
        },
        r matches Ok(s) ==> s.bytes_received + s.bytes_sent > 0 && forall|j: int|
            0 <= j < rows@.len() && eligible(#[trigger] rows@[j]) ==> rows@[j].in_octets + rows@[j].out_octets
                <= s.bytes_received + s.bytes_sent,
        r is Err ==> forall|j: int|
            0 <= j < rows@.len() && eligible(#[trigger] rows@[j]) ==> rows@[j].in_octets == 0
                && rows@[j].out_octets == 0,
{
    let mut best: Option<usize> = None;
    let mut max_traffic: u64 = 0;
    let mut i: usize = 0;
    while i < rows.len()
        invariant
            i <= rows@.len(),
            traffic_fits(rows@),
            match best {
                None => max_traffic == 0 && forall|j: int|
                    0 <= j < i && eligible(#[trigger] rows@[j]) ==> traffic(rows@[j]) == 0,
                Some(b) => {
                    &&& b < i
                    &&& eligible(rows@[b as int])
                    &&& traffic(rows@[b as int]) == max_traffic
                    &&& max_traffic > 0
                    &&& forall|j: int|
                        0 <= j < i && eligible(#[trigger] rows@[j]) ==> traffic(rows@[j]) <= max_traffic
                    &&& forall|j: int|
                        0 <= j < b && eligible(#[trigger] rows@[j]) ==> traffic(rows@[j]) < max_traffic
                },
            },
        decreases rows@.len() - i,
    {
        let row = &rows[i];
        if row.luid != 0 {
            assert(usable(rows@[i as int]));
            let is_connected = row.oper_status == IF_OPER_STATUS_UP;
            let total_traffic = row.in_octets + row.out_octets;
            if is_connected && total_traffic > max_traffic {
                max_traffic = total_traffic;
                best = Some(i);
            }
        }
        i = i + 1;
    }
    match best {
        Some(b) => {
            let row = &rows[b];
            let name = interface_text(&row.alias);
            assert(busiest_at(rows@, b as int));
            proof {
                law_busiest_has_most_bytes(rows@, b as int);
            }
            Ok(
                AdapterStats {
                    name,
                    bytes_received: row.in_octets,
                    bytes_sent: row.out_octets,
                    speed: row.transmit_link_speed,
                    is_connected: true,
                },
            )
        },
        None => {
            proof {
                law_no_traffic_means_no_bytes(rows@);
            }
            Err(String::from_str("No active network adapter found"))
        },
    }
}

/// Law: the busiest connected interface has received and sent more bytes in
/// all than any other connected interface, and some bytes at all.
pub proof fn law_busiest_has_most_bytes(rows: Seq<InterfaceRow>, i: int)
    requires
        busiest_at(rows, i),
    ensures
        rows[i].in_octets + rows[i].out_octets > 0,
        forall|j: int|
            0 <= j < rows.len() && eligible(#[trigger] rows[j]) ==> rows[j].in_octets + rows[j].out_octets
                <= rows[i].in_octets + rows[i].out_octets,
        forall|j: int|
            0 <= j < i && eligible(#[trigger] rows[j]) ==> rows[j].in_octets + rows[j].out_octets
                < rows[i].in_octets + rows[i].out_octets,
{
}

/// Law: when no connected interface has traffic, none has received or sent a
/// byte.
pub proof fn law_no_traffic_means_no_bytes(rows: Seq<InterfaceRow>)
    requires
        forall|j: int| 0 <= j < rows.len() && eligible(#[trigger] rows[j]) ==> traffic(rows[j]) == 0,
    ensures
        forall|j: int|
            0 <= j < rows.len() && eligible(#[trigger] rows[j]) ==> rows[j].in_octets == 0 && rows[j].out_octets
                == 0,
{
}

/// The listing of one usable row.
pub open spec fn info_of(r: InterfaceRow, a: AdapterInfo) -> bool {
    &&& field_text(r.alias@, a.name@)
    &&& field_text(r.description@, a.description@)
    &&& a.is_connected == (r.oper_status == IF_OPER_STATUS_UP)
    &&& a.speed == r.transmit_link_speed
}

pub open spec fn usable_pred() -> spec_fn(InterfaceRow) -> bool {
    |r: InterfaceRow| usable(r)
}

/// The usable rows.
pub open spec fn usable_rows(rows: Seq<InterfaceRow>) -> Seq<InterfaceRow> {
    rows.filter(usable_pred())
}

proof fn lemma_usable_step(rows: Seq<InterfaceRow>, i: int)
    requires
        0 <= i < rows.len(),
    ensures
        usable_rows(rows.take(i + 1)) == if usable(rows[i]) {
            usable_rows(rows.take(i)).push(rows[i])
        } else {
            usable_rows(rows.take(i))
        },
{
    reveal_with_fuel(Seq::<_>::filter, 1);
    assert(rows.take(i + 1).drop_last() =~= rows.take(i));
    assert(rows.take(i + 1).last() == rows[i]);
}

/// Every usable interface, in table order.
pub fn get_network_adapters(rows: &Vec<InterfaceRow>) -> (r: Vec<AdapterInfo>)
    ensures
        r@.len() == usable_rows(rows@).len(),
        forall|k: int| 0 <= k < r@.len() ==> info_of(usable_rows(rows@)[k], #[trigger] r@[k]),
{
    let mut out: Vec<AdapterInfo> = Vec::new();
    let mut i: usize = 0;
    while i < rows.len()
        invariant
            i <= rows@.len(),
            out@.len() == usable_rows(rows@.take(i as int)).len(),
            forall|k: int|
                0 <= k < out@.len() ==> info_of(usable_rows(rows@.take(i as int))[k], #[trigger] out@[k]),
        decreases rows@.len() - i,
    {
        proof {
            lemma_usable_step(rows@, i as int);
        }
        let row = &rows[i];
        if row.luid != 0 {
            let name = interface_text(&row.alias);
            let description = interface_text(&row.description);
            out.push(
                AdapterInfo {
                    name,
                    description,
                    is_connected: row.oper_status == IF_OPER_STATUS_UP,
                    speed: row.transmit_link_speed,
                },
            );
        }
        i = i + 1;
    }
    assert(rows@.take(rows@.len() as int) =~= rows@);
    out
}

} // verus!
