//! The Status Aggregator: the latest rendered fragment per resource, and the
//! fixed-order status rows composed from them.
//!
//! `update_span` is a pure reducer: a null-payload update removes its
//! resource's fragment, any other update replaces it wholesale with the
//! fragment its kind's template renders. The producer-identity resource is
//! special: at saturated severity it holds the disconnect banner, which
//! overrides the whole first row; at any lower severity its key is dropped
//! and normal rendering resumes.

use crate::bytes::{
    append_bytes, bytes_eq, clone_bytes, milli_text, milli_to_round_text, milli_to_text,
    milli_round_text, str_bytes,
};
use crate::color::{severity_color, spec_severity_color, Rgb, SEVERITY_SCALE};
use crate::record::{
    decode_record, kind_battery, kind_disk, kind_display, kind_loadavg, kind_network,
    kind_producer, kind_ram, kind_temperature, kind_volume, kind_weather, wire_update, Payload,
    PayloadV, ResourceUpdate, UpdateV, MAX_RECORD,
};
use vstd::prelude::*;
use vstd::string::StringSliceAdditionalSpecFns;
use vstd::utf8::{is_ascii_chars, is_ascii_chars_encode_utf8};

verus! {

/// One rendered fragment: the text of a resource's latest update, in the
/// color of its severity.
pub struct Fragment {
    pub text: Vec<u8>,
    pub color: Rgb,
}

/// The mathematical value of a [`Fragment`].
pub struct FragmentV {
    pub text: Seq<u8>,
    pub color: Rgb,
}

impl View for Fragment {
    type V = FragmentV;

    open spec fn view(&self) -> FragmentV {
        FragmentV { text: self.text@, color: self.color }
    }
}

impl Fragment {
    /// A copy of this fragment.
    pub fn dup(&self) -> (r: Fragment)
        ensures
            r@ == self@,
    {
        Fragment { text: clone_bytes(&self.text), color: self.color }
    }
}

/// The banner shown while the producer is unreachable.
pub open spec fn banner_text() -> Seq<u8> {
    "Producer disconnected".spec_bytes()
}

/// The battery glyph for a charge state.
pub open spec fn spec_battery_sym(state: Seq<u8>) -> Seq<u8> {
    if state == "Charging".spec_bytes() {
        "\u{f140b}".spec_bytes()
    } else if state == "Discharging".spec_bytes() {
        "\u{f0bc6}".spec_bytes()
    } else {
        Seq::empty()
    }
}

/// The text a known payload renders to, by its kind's template.
pub open spec fn spec_payload_text(resource: Seq<u8>, p: PayloadV) -> Seq<u8> {
    match p {
        PayloadV::Loadavg { m1, m5, m15 } => "[AVG ".spec_bytes() + milli_text(m1)
            + " ".spec_bytes() + milli_text(m5) + " ".spec_bytes() + milli_text(m15)
            + "] ".spec_bytes(),
        PayloadV::Ram { mem_percent, swap_percent } => "[MEM ".spec_bytes() + milli_text(
            mem_percent,
        ) + "% / SWP ".spec_bytes() + milli_text(swap_percent) + "%] ".spec_bytes(),
        PayloadV::Disk { used_percent } => "[DSK ".spec_bytes() + milli_text(used_percent)
            + "%] ".spec_bytes(),
        PayloadV::NetworkEthernet => "[ETH] ".spec_bytes(),
        PayloadV::NetworkWlan { signal, ip, ssid } => "[WLAN ".spec_bytes() + milli_text(signal)
            + "%] [IP ".spec_bytes() + ip + "] [NET ".spec_bytes() + ssid + "] ".spec_bytes(),
        PayloadV::Temperature { value } => "[TEMP ".spec_bytes() + milli_round_text(value)
            + "\u{b0}C] ".spec_bytes(),
        PayloadV::Volume { value } => "[VOL ".spec_bytes() + milli_round_text(value)
            + "%] ".spec_bytes(),
        PayloadV::Battery { percentage, state, eta } => {
            let eta_min = if crate::bytes::milli_round(eta) < 0 {
                0
            } else {
                crate::bytes::milli_round(eta)
            };
            "[BAT ".spec_bytes() + milli_round_text(percentage) + "%] [".spec_bytes()
                + spec_battery_sym(state) + " ".spec_bytes() + crate::bytes::dec_of(
                (eta_min / 60) as nat,
            ) + "h".spec_bytes() + crate::bytes::dec_of((eta_min % 60) as nat) + "m]".spec_bytes()
        },
        PayloadV::Weather { icon, text } => "[".spec_bytes() + icon + " ".spec_bytes() + text
            + "] ".spec_bytes(),
        PayloadV::Display => Seq::empty(),
        PayloadV::ProducerStatus => banner_text(),
        PayloadV::Generic => "[".spec_bytes() + resource + "] ".spec_bytes(),
    }
}

/// Renders a known payload's text.
pub fn payload_text(resource: &Vec<u8>, p: &Payload) -> (r: Vec<u8>)
    ensures
        r@ == spec_payload_text(resource@, p@),
{
    let mut out: Vec<u8> = Vec::new();
    match p {
        Payload::Loadavg { m1, m5, m15 } => {
            append_bytes(&mut out, &str_bytes("[AVG "));
            append_bytes(&mut out, &milli_to_text(*m1));
            append_bytes(&mut out, &str_bytes(" "));
            append_bytes(&mut out, &milli_to_text(*m5));
            append_bytes(&mut out, &str_bytes(" "));
            append_bytes(&mut out, &milli_to_text(*m15));
            append_bytes(&mut out, &str_bytes("] "));
        },
        Payload::Ram { mem_percent, swap_percent } => {
            append_bytes(&mut out, &str_bytes("[MEM "));
            append_bytes(&mut out, &milli_to_text(*mem_percent));
            append_bytes(&mut out, &str_bytes("% / SWP "));
            append_bytes(&mut out, &milli_to_text(*swap_percent));
            append_bytes(&mut out, &str_bytes("%] "));
        },
        Payload::Disk { used_percent } => {
            append_bytes(&mut out, &str_bytes("[DSK "));
            append_bytes(&mut out, &milli_to_text(*used_percent));
            append_bytes(&mut out, &str_bytes("%] "));
        },
        Payload::NetworkEthernet => {
            append_bytes(&mut out, &str_bytes("[ETH] "));
        },
        Payload::NetworkWlan { signal, ip, ssid } => {
            append_bytes(&mut out, &str_bytes("[WLAN "));
            append_bytes(&mut out, &milli_to_text(*signal));
            append_bytes(&mut out, &str_bytes("%] [IP "));
            append_bytes(&mut out, ip);
            append_bytes(&mut out, &str_bytes("] [NET "));
            append_bytes(&mut out, ssid);
            append_bytes(&mut out, &str_bytes("] "));
        },
        Payload::Temperature { value } => {
            append_bytes(&mut out, &str_bytes("[TEMP "));
            append_bytes(&mut out, &milli_to_round_text(*value));
            append_bytes(&mut out, &str_bytes("\u{b0}C] "));
        },
        Payload::Volume { value } => {
            append_bytes(&mut out, &str_bytes("[VOL "));
            append_bytes(&mut out, &milli_to_round_text(*value));
            append_bytes(&mut out, &str_bytes("%] "));
        },
        Payload::Battery { percentage, state, eta } => {
            let rounded = crate::bytes::milli_round_i64(*eta);
            let eta_min: u64 = if rounded < 0 {
                0
            } else {
                rounded as u64
            };
            append_bytes(&mut out, &str_bytes("[BAT "));
            append_bytes(&mut out, &milli_to_round_text(*percentage));
            append_bytes(&mut out, &str_bytes("%] ["));
            if bytes_eq(state, &str_bytes("Charging")) {
                append_bytes(&mut out, &str_bytes("\u{f140b}"));
            } else if bytes_eq(state, &str_bytes("Discharging")) {
                append_bytes(&mut out, &str_bytes("\u{f0bc6}"));
            }
            append_bytes(&mut out, &str_bytes(" "));
            append_bytes(&mut out, &crate::bytes::dec_u64(eta_min / 60));
            append_bytes(&mut out, &str_bytes("h"));
            append_bytes(&mut out, &crate::bytes::dec_u64(eta_min % 60));
            append_bytes(&mut out, &str_bytes("m]"));
        },
        Payload::Weather { icon, text } => {
            append_bytes(&mut out, &str_bytes("["));
            append_bytes(&mut out, icon);
            append_bytes(&mut out, &str_bytes(" "));
            append_bytes(&mut out, text);
            append_bytes(&mut out, &str_bytes("] "));
        },
        Payload::Display => {},
        Payload::ProducerStatus => {
            append_bytes(&mut out, &str_bytes("Producer disconnected"));
        },
        Payload::Generic => {
            append_bytes(&mut out, &str_bytes("["));
            append_bytes(&mut out, resource);
            append_bytes(&mut out, &str_bytes("] "));
        },
    }
    proof {
        assert(out@ =~= spec_payload_text(resource@, p@));
    }
    out
}

/// One stored binding of the status map.
struct Entry {
    key: Vec<u8>,
    frag: Fragment,
}

/// The map a run of bindings denotes, later bindings shadowing earlier ones.
spec fn map_of(es: Seq<Entry>) -> Map<Seq<u8>, FragmentV>
    decreases es.len(),
{
    if es.len() == 0 {
        Map::empty()
    } else {
        map_of(es.drop_last()).insert(es.last().key@, es.last().frag@)
    }
}

spec fn entry_keys_distinct(es: Seq<Entry>) -> bool {
    forall|i: int, j: int| 0 <= i < j < es.len() ==> es[i].key@ != es[j].key@
}

proof fn lemma_map_of_contains(es: Seq<Entry>, k: Seq<u8>)
    ensures
        map_of(es).contains_key(k) <==> exists|i: int| 0 <= i < es.len() && es[i].key@ == k,
    decreases es.len(),
{
    if es.len() > 0 {
        lemma_map_of_contains(es.drop_last(), k);
        assert(forall|i: int|
            0 <= i < es.drop_last().len() ==> es.drop_last()[i] == es[i]);
        if map_of(es).contains_key(k) {
            if es.last().key@ == k {
                assert(es[es.len() - 1].key@ == k);
            }
        }
    }
}

proof fn lemma_map_of_index(es: Seq<Entry>, i: int)
    requires
        entry_keys_distinct(es),
        0 <= i < es.len(),
    ensures
        map_of(es).contains_key(es[i].key@),
        map_of(es)[es[i].key@] == es[i].frag@,
    decreases es.len(),
{
    if i < es.len() - 1 {
        assert(forall|a: int, b: int|
            0 <= a < b < es.drop_last().len() ==> es.drop_last()[a].key@ != es.drop_last()[b].key@);
        lemma_map_of_index(es.drop_last(), i);
        assert(es.last().key@ != es[i].key@);
    }
}

proof fn lemma_map_of_remove(es: Seq<Entry>, ix: int)
    requires
        entry_keys_distinct(es),
        0 <= ix < es.len(),
    ensures
        map_of(es.remove(ix)) == map_of(es).remove(es[ix].key@),
        entry_keys_distinct(es.remove(ix)),
    decreases es.len(),
{
    let k = es[ix].key@;
    assert(forall|a: int, b: int|
        0 <= a < b < es.drop_last().len() ==> es.drop_last()[a].key@ != es.drop_last()[b].key@);
    if ix == es.len() - 1 {
        assert(es.remove(ix) =~= es.drop_last());
        lemma_map_of_contains(es.drop_last(), k);
        assert(forall|i: int| 0 <= i < es.len() - 1 ==> es[i] == es.drop_last()[i]);
        assert(!map_of(es.drop_last()).contains_key(k));
        assert(map_of(es.drop_last()).insert(k, es.last().frag@).remove(k) =~= map_of(
            es.drop_last(),
        ));
    } else {
        let es2 = es.remove(ix);
        assert(es2.drop_last() =~= es.drop_last().remove(ix));
        assert(es2.last() == es.last());
        lemma_map_of_remove(es.drop_last(), ix);
        assert(es.last().key@ != k);
        assert(map_of(es.drop_last()).remove(k).insert(es.last().key@, es.last().frag@) =~= map_of(
            es.drop_last(),
        ).insert(es.last().key@, es.last().frag@).remove(k));
        assert(forall|a: int, b: int| 0 <= a < b < es2.len() ==> es2[a].key@ != es2[b].key@);
    }
}

/// The Status Aggregator's state: the latest fragment per resource.
pub struct StatusMap {
    entries: Vec<Entry>,
}

impl View for StatusMap {
    type V = Map<Seq<u8>, FragmentV>;

    closed spec fn view(&self) -> Map<Seq<u8>, FragmentV> {
        map_of(self.entries@)
    }
}

impl StatusMap {
    /// The map is stored without duplicate keys.
    pub closed spec fn wf(&self) -> bool {
        entry_keys_distinct(self.entries@)
    }

    /// An empty status map.
    pub fn new() -> (r: StatusMap)
        ensures
            r.wf(),
            r@ == Map::<Seq<u8>, FragmentV>::empty(),
    {
        let entries: Vec<Entry> = Vec::new();
        StatusMap { entries }
    }

    /// Whether no resource holds a fragment.
    pub fn is_empty(&self) -> (r: bool)
        requires
            self.wf(),
        ensures
            r <==> self@ =~= Map::<Seq<u8>, FragmentV>::empty(),
    {
        let n = self.entries.len();
        if n == 0 {
            true
        } else {
            proof {
                lemma_map_of_index(self.entries@, n - 1);
            }
            false
        }
    }

    /// The fragment under `key`, if one is held.
    pub fn get(&self, key: &Vec<u8>) -> (r: Option<&Fragment>)
        requires
            self.wf(),
        ensures
            match r {
                Some(f) => self@.contains_key(key@) && f@ == self@[key@],
                None => !self@.contains_key(key@),
            },
    {
        let mut i: usize = 0;
        while i < self.entries.len()
            invariant
                i <= self.entries@.len(),
                self.wf(),
                forall|j: int| 0 <= j < i ==> self.entries@[j].key@ != key@,
            decreases self.entries@.len() - i,
        {
            if bytes_eq(&self.entries[i].key, key) {
                proof {
                    lemma_map_of_index(self.entries@, i as int);
                }
                return Some(&self.entries[i].frag);
            }
            i += 1;
        }
        proof {
            lemma_map_of_contains(self.entries@, key@);
        }
        None
    }

    /// Drops the binding under `key`, if one is held.
    pub fn remove(&mut self, key: &Vec<u8>)
        requires
            old(self).wf(),
        ensures
            final(self).wf(),
            final(self)@ == old(self)@.remove(key@),
    {
        let mut i: usize = 0;
        while i < self.entries.len()
            invariant
                i <= self.entries@.len(),
                self.wf(),
                self.entries@ == old(self).entries@,
                forall|j: int| 0 <= j < i ==> self.entries@[j].key@ != key@,
            decreases self.entries@.len() - i,
        {
            if bytes_eq(&self.entries[i].key, key) {
                proof {
                    lemma_map_of_remove(self.entries@, i as int);
                }
                self.entries.remove(i);
                return;
            }
            i += 1;
        }
        proof {
            lemma_map_of_contains(self.entries@, key@);
            assert(!self@.contains_key(key@));
            assert(self@.remove(key@) =~= self@);
        }
    }

    /// Binds `key` to `frag`, replacing any previous fragment wholesale.
    pub fn insert(&mut self, key: Vec<u8>, frag: Fragment)
        requires
            old(self).wf(),
        ensures
            final(self).wf(),
            final(self)@ == old(self)@.insert(key@, frag@),
    {
        self.remove(&key);
        proof {
            lemma_map_of_contains(self.entries@, key@);
            assert(forall|j: int| 0 <= j < self.entries@.len() ==> self.entries@[j].key@ != key@);
        }
        let ghost prev = self.entries@;
        let ghost prevm = self@;
        self.entries.push(Entry { key, frag });
        proof {
            assert(self.entries@.drop_last() =~= prev);
            assert(old(self)@.remove(self.entries@.last().key@).insert(
                self.entries@.last().key@,
                self.entries@.last().frag@,
            ) =~= old(self)@.insert(self.entries@.last().key@, self.entries@.last().frag@));
        }
    }
}

/// The fragment the disconnect banner renders as: the banner text in the
/// critical color.
pub open spec fn banner_fragment() -> FragmentV {
    FragmentV { text: banner_text(), color: spec_severity_color(SEVERITY_SCALE as int) }
}

/// The Status Aggregator's reduction step. A null payload removes the
/// resource's fragment. The producer-identity resource holds the disconnect
/// banner exactly while its severity is saturated, and is dropped otherwise.
/// Every other update replaces its resource's fragment with its kind's
/// template text in its severity's color.
pub open spec fn spec_apply(m: Map<Seq<u8>, FragmentV>, u: UpdateV) -> Map<Seq<u8>, FragmentV> {
    match u.payload {
        None => m.remove(u.resource),
        Some(p) => if u.resource == kind_producer() {
            if u.severity == SEVERITY_SCALE as int {
                m.insert(u.resource, banner_fragment())
            } else {
                m.remove(u.resource)
            }
        } else {
            m.insert(
                u.resource,
                FragmentV {
                    text: spec_payload_text(u.resource, p),
                    color: spec_severity_color(u.severity),
                },
            )
        },
    }
}

/// Applies one decoded update to the status map (the reducer of the render
/// loop).
pub fn update_span(map: &mut StatusMap, update: &ResourceUpdate)
    requires
        old(map).wf(),
        update.severity <= SEVERITY_SCALE,
    ensures
        final(map).wf(),
        final(map)@ == spec_apply(old(map)@, update@),
{
    match &update.payload {
        None => {
            map.remove(&update.resource);
        },
        Some(p) => {
            if bytes_eq(&update.resource, &str_bytes("producer-identity")) {
                if update.severity == SEVERITY_SCALE {
                    let key = clone_bytes(&update.resource);
                    let text = str_bytes("Producer disconnected");
                    map.insert(key, Fragment { text, color: severity_color(SEVERITY_SCALE) });
                } else {
                    map.remove(&update.resource);
                }
            } else {
                let key = clone_bytes(&update.resource);
                let text = payload_text(&update.resource, p);
                map.insert(key, Fragment { text, color: severity_color(update.severity) });
            }
        },
    }
}

/// The singleton of `k`'s fragment, or nothing.
pub open spec fn frag_of(m: Map<Seq<u8>, FragmentV>, k: Seq<u8>) -> Seq<FragmentV> {
    if m.contains_key(k) {
        seq![m[k]]
    } else {
        Seq::empty()
    }
}

/// The first status row: the disconnect banner alone while the
/// producer-identity key is held, else the fragments of the fixed first-row
/// kinds in their fixed order, absent kinds skipped.
pub open spec fn spec_first_row(m: Map<Seq<u8>, FragmentV>) -> Seq<FragmentV> {
    if m.contains_key(kind_producer()) {
        seq![m[kind_producer()]]
    } else {
        frag_of(m, kind_loadavg()) + frag_of(m, kind_ram()) + frag_of(m, kind_disk()) + frag_of(
            m,
            kind_temperature(),
        ) + frag_of(m, kind_volume()) + frag_of(m, kind_weather()) + frag_of(m, kind_display())
    }
}

/// The second status row: network then battery, absent kinds skipped; empty
/// when both are absent.
pub open spec fn spec_second_row(m: Map<Seq<u8>, FragmentV>) -> Seq<FragmentV> {
    frag_of(m, kind_network()) + frag_of(m, kind_battery())
}

/// The mathematical values of a run of fragments.
pub open spec fn frags_view(fs: Seq<Fragment>) -> Seq<FragmentV> {
    fs.map_values(|f: Fragment| f@)
}

fn push_key(map: &StatusMap, out: &mut Vec<Fragment>, key: &str)
    requires
        map.wf(),
    ensures
        frags_view(final(out)@) == frags_view(old(out)@) + frag_of(map@, key.spec_bytes()),
{
    let k = str_bytes(key);
    let ghost prev = frags_view(out@);
    match map.get(&k) {
        Some(f) => {
            out.push(f.dup());
            proof {
                assert(frags_view(out@) =~= prev + frag_of(map@, key.spec_bytes()));
            }
        },
        None => {
            proof {
                assert(frags_view(out@) =~= prev + frag_of(map@, key.spec_bytes()));
            }
        },
    }
}

/// Composes the first status row in its fixed order.
pub fn first_row(map: &StatusMap) -> (r: Vec<Fragment>)
    requires
        map.wf(),
    ensures
        frags_view(r@) == spec_first_row(map@),
{
    let pkey = str_bytes("producer-identity");
    match map.get(&pkey) {
        Some(f) => {
            let mut out: Vec<Fragment> = Vec::new();
            out.push(f.dup());
            proof {
                assert(frags_view(out@) =~= seq![map@[kind_producer()]]);
            }
            out
        },
        None => {
            let mut out: Vec<Fragment> = Vec::new();
            proof {
                assert(frags_view(out@) =~= Seq::<FragmentV>::empty());
            }
            push_key(map, &mut out, "loadavg");
            push_key(map, &mut out, "ram");
            push_key(map, &mut out, "disk");
            push_key(map, &mut out, "temperature");
            push_key(map, &mut out, "volume");
            push_key(map, &mut out, "weather");
            push_key(map, &mut out, "display");
            proof {
                assert(frags_view(out@) =~= spec_first_row(map@));
            }
            out
        },
    }
}

/// Composes the second status row in its fixed order.
pub fn second_row(map: &StatusMap) -> (r: Vec<Fragment>)
    requires
        map.wf(),
    ensures
        frags_view(r@) == spec_second_row(map@),
{
    let mut out: Vec<Fragment> = Vec::new();
    proof {
        assert(frags_view(out@) =~= Seq::<FragmentV>::empty());
    }
    push_key(map, &mut out, "network");
    push_key(map, &mut out, "battery");
    proof {
        assert(frags_view(out@) =~= spec_second_row(map@));
    }
    out
}

/// The status map after a run of raw records: each record that decodes is
/// applied in order, and every record that is oversized or malformed is
/// dropped without disturbing the fold.
pub open spec fn spec_ingest(m: Map<Seq<u8>, FragmentV>, rs: Seq<Seq<u8>>) -> Map<
    Seq<u8>,
    FragmentV,
>
    decreases rs.len(),
{
    if rs.len() == 0 {
        m
    } else {
        let m1 = if rs[0].len() <= MAX_RECORD && wire_update(rs[0]) is Some {
            spec_apply(m, wire_update(rs[0])->Some_0)
        } else {
            m
        };
        spec_ingest(m1, rs.drop_first())
    }
}

/// Decodes a batch of complete records and folds every decodable one into
/// the status map.
pub fn ingest(map: &mut StatusMap, records: &Vec<Vec<u8>>)
    requires
        old(map).wf(),
    ensures
        final(map).wf(),
        final(map)@ == spec_ingest(old(map)@, records.deep_view()),
{
    let ghost rs = records.deep_view();
    let mut i: usize = 0;
    proof {
        assert(rs.skip(0) =~= rs);
    }
    while i < records.len()
        invariant
            i <= records@.len(),
            map.wf(),
            rs == records.deep_view(),
            rs.len() == records@.len(),
            spec_ingest(old(map)@, rs) == spec_ingest(map@, rs.skip(i as int)),
        decreases records@.len() - i,
    {
        proof {
            assert(rs.skip(i as int).drop_first() =~= rs.skip(i + 1));
            assert(rs[i as int] =~= records@[i as int]@);
            assert(rs.skip(i as int)[0] == rs[i as int]);
        }
        match decode_record(&records[i]) {
            Ok(u) => {
                update_span(map, &u);
            },
            Err(_) => {
            },
        }
        i += 1;
    }
    proof {
        assert(rs.skip(records@.len() as int) =~= Seq::<Seq<u8>>::empty());
    }
}

/// A malformed record between two decodable records suppresses neither: the
/// fold over the three applies the first and the last exactly as if the bad
/// record were not there.
#[verifier::rlimit(100)]
#[verifier::spinoff_prover]
pub proof fn lemma_malformed_between(
    m: Map<Seq<u8>, FragmentV>,
    r1: Seq<u8>,
    bad: Seq<u8>,
    r2: Seq<u8>,
)
    requires
        r1.len() <= MAX_RECORD,
        wire_update(r1) is Some,
        bad.len() > MAX_RECORD || wire_update(bad) is None,
        r2.len() <= MAX_RECORD,
        wire_update(r2) is Some,
    ensures
        spec_ingest(m, seq![r1, bad, r2]) == spec_apply(
            spec_apply(m, wire_update(r1)->Some_0),
            wire_update(r2)->Some_0,
        ),
{
    let rs = seq![r1, bad, r2];
    let s2 = seq![bad, r2];
    let s3 = seq![r2];
    assert(rs.drop_first() =~= s2);
    assert(s2.drop_first() =~= s3);
    assert(s3.drop_first() =~= Seq::<Seq<u8>>::empty());
    let u1 = wire_update(r1)->Some_0;
    let u2 = wire_update(r2)->Some_0;
    assert(rs[0] == r1);
    assert(s2[0] == bad);
    assert(s3[0] == r2);
    let m1 = spec_apply(m, u1);
    assert(spec_ingest(m, rs) == spec_ingest(m1, s2));
    assert(spec_ingest(m1, s2) == spec_ingest(m1, s3));
    assert(spec_ingest(spec_apply(m1, u2), Seq::<Seq<u8>>::empty()) == spec_apply(m1, u2));
    assert(spec_ingest(m1, s3) == spec_apply(m1, u2));
}

/// Last write wins: after updates for one resource are applied in order, that
/// resource's fragment is exactly what the last update alone determines,
/// whatever map either update started from.
pub proof fn lemma_last_write_wins(
    m: Map<Seq<u8>, FragmentV>,
    n: Map<Seq<u8>, FragmentV>,
    u1: UpdateV,
    u2: UpdateV,
)
    requires
        u1.resource == u2.resource,
    ensures
        spec_apply(spec_apply(m, u1), u2).contains_key(u2.resource) == spec_apply(
            n,
            u2,
        ).contains_key(u2.resource),
        spec_apply(spec_apply(m, u1), u2).contains_key(u2.resource) ==> spec_apply(
            spec_apply(m, u1),
            u2,
        )[u2.resource] == spec_apply(n, u2)[u2.resource],
{
}

/// The kind keys of both status rows all differ from the producer-identity
/// key, so clearing the producer key never disturbs another kind's fragment.
pub proof fn lemma_kinds_not_producer()
    ensures
        kind_loadavg() != kind_producer(),
        kind_ram() != kind_producer(),
        kind_disk() != kind_producer(),
        kind_temperature() != kind_producer(),
        kind_volume() != kind_producer(),
        kind_weather() != kind_producer(),
        kind_display() != kind_producer(),
        kind_network() != kind_producer(),
        kind_battery() != kind_producer(),
{
    reveal_strlit("loadavg");
    reveal_strlit("ram");
    reveal_strlit("disk");
    reveal_strlit("temperature");
    reveal_strlit("volume");
    reveal_strlit("weather");
    reveal_strlit("display");
    reveal_strlit("network");
    reveal_strlit("battery");
    reveal_strlit("producer-identity");
    assert(is_ascii_chars("loadavg"@));
    assert(is_ascii_chars("ram"@));
    assert(is_ascii_chars("disk"@));
    assert(is_ascii_chars("temperature"@));
    assert(is_ascii_chars("volume"@));
    assert(is_ascii_chars("weather"@));
    assert(is_ascii_chars("display"@));
    assert(is_ascii_chars("network"@));
    assert(is_ascii_chars("battery"@));
    assert(is_ascii_chars("producer-identity"@));
    is_ascii_chars_encode_utf8("loadavg"@);
    is_ascii_chars_encode_utf8("ram"@);
    is_ascii_chars_encode_utf8("disk"@);
    is_ascii_chars_encode_utf8("temperature"@);
    is_ascii_chars_encode_utf8("volume"@);
    is_ascii_chars_encode_utf8("weather"@);
    is_ascii_chars_encode_utf8("display"@);
    is_ascii_chars_encode_utf8("network"@);
    is_ascii_chars_encode_utf8("battery"@);
    is_ascii_chars_encode_utf8("producer-identity"@);
    assert(kind_producer().len() == 17);
    assert(kind_loadavg().len() == 7);
    assert(kind_ram().len() == 3);
    assert(kind_disk().len() == 4);
    assert(kind_temperature().len() == 11);
    assert(kind_volume().len() == 6);
    assert(kind_weather().len() == 7);
    assert(kind_display().len() == 7);
    assert(kind_network().len() == 7);
    assert(kind_battery().len() == 7);
}

/// A producer-identity update at saturated severity makes the first row
/// exactly the disconnect banner, whatever other fragments the map holds.
pub proof fn lemma_producer_override(m: Map<Seq<u8>, FragmentV>, u: UpdateV)
    requires
        u.resource == kind_producer(),
        u.payload is Some,
        u.severity == SEVERITY_SCALE as int,
    ensures
        spec_first_row(spec_apply(m, u)) == seq![banner_fragment()],
{
    assert(spec_first_row(spec_apply(m, u)) =~= seq![banner_fragment()]);
}

/// Clearing the producer-identity key (a null payload) or lowering its
/// severity below saturation restores normal rendering: the first row is
/// again the fixed-order composition over the untouched other fragments.
pub proof fn lemma_producer_clear(m: Map<Seq<u8>, FragmentV>, u: UpdateV)
    requires
        u.resource == kind_producer(),
        u.payload is None || u.severity != SEVERITY_SCALE as int,
    ensures
        !spec_apply(m, u).contains_key(kind_producer()),
        spec_first_row(spec_apply(m, u)) == spec_first_row(m.remove(kind_producer())),
{
    lemma_kinds_not_producer();
    let m2 = spec_apply(m, u);
    assert(m2 =~= m.remove(kind_producer()));
}

/// A resource's key is held exactly while its most recent update carried a
/// payload; the producer-identity key additionally demands saturated
/// severity.
pub proof fn lemma_presence_follows_payload(m: Map<Seq<u8>, FragmentV>, u: UpdateV)
    ensures
        u.payload is None ==> !spec_apply(m, u).contains_key(u.resource),
        u.payload is Some && u.resource != kind_producer() ==> spec_apply(m, u).contains_key(
            u.resource,
        ),
        u.payload is Some && u.resource == kind_producer() ==> (spec_apply(m, u).contains_key(
            u.resource,
        ) <==> u.severity == SEVERITY_SCALE as int),
{
}

} // verus!
