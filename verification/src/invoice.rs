//! The invoice model and its classification into handlers.
//!
//! An invoice describes one versioned package: a set of content entries
//! (parcels), each with a logical name, a media-type label and a content
//! digest, grouped so that some entries form an invocable handler (one
//! module-capable entry) with associated asset entries. Entries that do not
//! match the handler shape are ignored, never errors.

use vstd::prelude::*;
use vstd::string::StringExecFns;

use crate::error::EmplacerError;

use bindle::Parcel as BindleParcel;

verus! {

/// A (name, version) pair identifying one invoice. Immutable once fetched.
pub struct InvoiceId {
    pub name: String,
    pub version: String,
}

/// Mathematical image of an [`InvoiceId`].
pub struct InvoiceIdView {
    pub name: Seq<char>,
    pub version: Seq<char>,
}

impl View for InvoiceId {
    type V = InvoiceIdView;

    open spec fn view(&self) -> InvoiceIdView {
        InvoiceIdView { name: self.name@, version: self.version@ }
    }
}

impl DeepView for InvoiceId {
    type V = InvoiceIdView;

    open spec fn deep_view(&self) -> InvoiceIdView {
        self.view()
    }
}

impl Clone for InvoiceId {
    fn clone(&self) -> (r: Self)
        ensures
            r@ == self@,
    {
        InvoiceId { name: self.name.clone(), version: self.version.clone() }
    }
}

impl InvoiceId {
    pub fn new(name: String, version: String) -> (r: Self)
        ensures
            r@ == (InvoiceIdView { name: name@, version: version@ }),
    {
        InvoiceId { name, version }
    }
}

/// One content entry of an invoice: a named piece of content identified by a
/// content digest, with the grouping and feature metadata that classification
/// reads.
pub struct Parcel {
    /// Logical name of the entry.
    pub name: String,
    /// Content digest: the entry's identity for deduplication.
    pub sha256: String,
    /// Media-type label.
    pub media_type: String,
    /// Names of the groups this entry is a member of; an entry belonging to
    /// no group sits in the implicit top-level group.
    pub member_of: Vec<String>,
    /// Names of the groups whose members are this entry's assets.
    pub requires: Vec<String>,
    /// Feature metadata as (section, key, value) triples.
    pub features: Vec<(String, String, String)>,
}

/// Mathematical image of a [`Parcel`].
pub struct ParcelView {
    pub name: Seq<char>,
    pub sha256: Seq<char>,
    pub media_type: Seq<char>,
    pub member_of: Seq<Seq<char>>,
    pub requires: Seq<Seq<char>>,
    pub features: Seq<(Seq<char>, Seq<char>, Seq<char>)>,
}

impl View for Parcel {
    type V = ParcelView;

    open spec fn view(&self) -> ParcelView {
        ParcelView {
            name: self.name@,
            sha256: self.sha256@,
            media_type: self.media_type@,
            member_of: self.member_of.deep_view(),
            requires: self.requires.deep_view(),
            features: self.features.deep_view(),
        }
    }
}

impl DeepView for Parcel {
    type V = ParcelView;

    open spec fn deep_view(&self) -> ParcelView {
        self.view()
    }
}

impl Clone for Parcel {
    fn clone(&self) -> (r: Self)
        ensures
            r@ == self@,
    {
        let r = Parcel {
            name: self.name.clone(),
            sha256: self.sha256.clone(),
            media_type: self.media_type.clone(),
            member_of: clone_strings(&self.member_of),
            requires: clone_strings(&self.requires),
            features: clone_triples(&self.features),
        };
        proof {
            assert(r@.member_of =~= self@.member_of);
            assert(r@.requires =~= self@.requires);
            assert(r@.features =~= self@.features);
        }
        r
    }
}

/// One invoice: an identity plus its content entries.
pub struct Invoice {
    pub id: InvoiceId,
    pub parcels: Vec<Parcel>,
}

/// Mathematical image of an [`Invoice`].
pub struct InvoiceView {
    pub id: InvoiceIdView,
    pub parcels: Seq<ParcelView>,
}

impl View for Invoice {
    type V = InvoiceView;

    open spec fn view(&self) -> InvoiceView {
        InvoiceView { id: self.id@, parcels: self.parcels.deep_view() }
    }
}

/// One invocable handler: the module-capable entry, the identity of the
/// invoice it came from, and the asset entries grouped with it.
pub struct WagiHandlerInfo {
    pub invoice_id: InvoiceId,
    pub parcel: Parcel,
    pub asset_parcels: Vec<Parcel>,
}

/// Mathematical image of a [`WagiHandlerInfo`].
pub struct WagiHandlerInfoView {
    pub invoice_id: InvoiceIdView,
    pub parcel: ParcelView,
    pub asset_parcels: Seq<ParcelView>,
}

impl View for WagiHandlerInfo {
    type V = WagiHandlerInfoView;

    open spec fn view(&self) -> WagiHandlerInfoView {
        WagiHandlerInfoView {
            invoice_id: self.invoice_id@,
            parcel: self.parcel@,
            asset_parcels: self.asset_parcels.deep_view(),
        }
    }
}

impl DeepView for WagiHandlerInfo {
    type V = WagiHandlerInfoView;

    open spec fn deep_view(&self) -> WagiHandlerInfoView {
        self.view()
    }
}

impl Clone for WagiHandlerInfo {
    fn clone(&self) -> (r: Self)
        ensures
            r@ == self@,
    {
        let r = WagiHandlerInfo {
            invoice_id: self.invoice_id.clone(),
            parcel: self.parcel.clone(),
            asset_parcels: clone_parcels(&self.asset_parcels),
        };
        proof {
            assert(r@.asset_parcels =~= self@.asset_parcels);
        }
        r
    }
}

impl WagiHandlerInfo {
    /// The asset entries associated with this handler.
    pub fn asset_parcels(&self) -> (r: &Vec<Parcel>)
        ensures
            r.deep_view() == self@.asset_parcels,
    {
        &self.asset_parcels
    }
}

/// Whether the feature table of `p` holds an entry under the given section
/// and key.
pub open spec fn has_feature(p: ParcelView, section: Seq<char>, key: Seq<char>) -> bool {
    exists|i: int|
        0 <= i < p.features.len() && p.features[i].0 == section && p.features[i].1 == key
}

/// Whether `p` sits in the implicit top-level group, that is, belongs to no
/// named group.
pub open spec fn is_top_level(p: ParcelView) -> bool {
    p.member_of.len() == 0
}

/// Whether `p` is classified as an invocable handler: a top-level,
/// module-capable entry carrying a route marker in its feature table.
pub open spec fn is_handler_parcel(p: ParcelView) -> bool {
    is_top_level(p) && p.media_type == "application/wasm"@ && has_feature(p, "wagi"@, "route"@)
}

/// Whether `p` is an asset of the handler entry `h`: a member of some group
/// that `h` requires.
pub open spec fn is_asset_for(p: ParcelView, h: ParcelView) -> bool {
    exists|i: int| 0 <= i < h.requires.len() && p.member_of.contains(#[trigger] h.requires[i])
}

/// The handler predicate as a first-class function, so that every statement
/// about the classified set filters by one and the same predicate.
pub open spec fn handler_pred() -> spec_fn(ParcelView) -> bool {
    |p: ParcelView| is_handler_parcel(p)
}

/// The asset predicate of a fixed handler entry, as a first-class function.
pub open spec fn asset_pred(h: ParcelView) -> spec_fn(ParcelView) -> bool {
    |p: ParcelView| is_asset_for(p, h)
}

/// The module entries of a handler list, in order.
pub open spec fn handler_parcels(hs: Seq<WagiHandlerInfoView>) -> Seq<ParcelView> {
    hs.map_values(|h: WagiHandlerInfoView| h.parcel)
}

impl Invoice {
    /// Classifies this invoice's entries into handlers.
    ///
    /// The module entries of the result are exactly the entries satisfying
    /// [`is_handler_parcel`], in invoice order; each handler carries this
    /// invoice's identity and exactly the entries grouped with it as assets,
    /// in invoice order. Everything else is ignored.
    pub fn classify(&self) -> (r: Vec<WagiHandlerInfo>)
        ensures
            handler_parcels(r.deep_view()) == self@.parcels.filter(handler_pred()),
            forall|j: int|
                0 <= j < r@.len() ==> (#[trigger] r.deep_view()[j]).invoice_id == self@.id
                    && r.deep_view()[j].asset_parcels == self@.parcels.filter(
                    asset_pred(r.deep_view()[j].parcel),
                ),
    {
        broadcast use {vstd::seq_lib::group_filter_ensures, vstd::seq::Seq::lemma_filter_push};

        let mut out: Vec<WagiHandlerInfo> = Vec::new();
        let mut i: usize = 0;
        while i < self.parcels.len()
            invariant
                i <= self.parcels.len(),
                handler_parcels(out.deep_view()) =~= self@.parcels.take(i as int).filter(
                    handler_pred(),
                ),
                forall|j: int|
                    0 <= j < out@.len() ==> (#[trigger] out.deep_view()[j]).invoice_id == self@.id
                        && out.deep_view()[j].asset_parcels == self@.parcels.filter(
                        asset_pred(out.deep_view()[j].parcel),
                    ),
            decreases self.parcels.len() - i,
        {
            let ghost pre = out.deep_view();
            if parcel_is_handler(&self.parcels[i]) {
                let h = WagiHandlerInfo {
                    invoice_id: self.id.clone(),
                    parcel: self.parcels[i].clone(),
                    asset_parcels: self.assets_for(&self.parcels[i]),
                };
                let ghost hv = h@;
                out.push(h);
                proof {
                    assert(out.deep_view() =~= pre.push(hv));
                    assert(handler_parcels(out.deep_view()) =~= handler_parcels(pre).push(
                        hv.parcel,
                    ));
                }
            }
            proof {
                assert(self@.parcels.take(i + 1) =~= self@.parcels.take(i as int).push(
                    self@.parcels[i as int],
                ));
                self@.parcels.take(i as int).lemma_filter_push(
                    self@.parcels[i as int],
                    handler_pred(),
                );
            }
            i = i + 1;
        }
        proof {
            assert(self@.parcels.take(self.parcels.len() as int) =~= self@.parcels);
        }
        out
    }

    /// Collects, in invoice order, the entries that are assets of the handler
    /// entry `h`.
    fn assets_for(&self, h: &Parcel) -> (r: Vec<Parcel>)
        ensures
            r.deep_view() == self@.parcels.filter(asset_pred(h@)),
    {
        broadcast use {vstd::seq_lib::group_filter_ensures, vstd::seq::Seq::lemma_filter_push};

        let mut out: Vec<Parcel> = Vec::new();
        let mut i: usize = 0;
        while i < self.parcels.len()
            invariant
                i <= self.parcels.len(),
                out.deep_view() =~= self@.parcels.take(i as int).filter(asset_pred(h@)),
            decreases self.parcels.len() - i,
        {
            let ghost pre = out.deep_view();
            if parcel_is_asset_for(&self.parcels[i], h) {
                out.push(self.parcels[i].clone());
                proof {
                    assert(out.deep_view() =~= pre.push(self@.parcels[i as int]));
                }
            }
            proof {
                assert(self@.parcels.take(i + 1) =~= self@.parcels.take(i as int).push(
                    self@.parcels[i as int],
                ));
                self@.parcels.take(i as int).lemma_filter_push(
                    self@.parcels[i as int],
                    asset_pred(h@),
                );
            }
            i = i + 1;
        }
        proof {
            assert(self@.parcels.take(self.parcels.len() as int) =~= self@.parcels);
        }
        out
    }
}

/// Decides [`is_handler_parcel`] for one entry.
pub fn parcel_is_handler(p: &Parcel) -> (r: bool)
    ensures
        r == is_handler_parcel(p@),
{
    if p.member_of.len() != 0 {
        return false;
    }
    let wasm = String::from_str("application/wasm");
    if !p.media_type.eq(&wasm) {
        return false;
    }
    let section = String::from_str("wagi");
    let key = String::from_str("route");
    parcel_has_feature(p, &section, &key)
}

/// Decides [`has_feature`] for one entry.
fn parcel_has_feature(p: &Parcel, section: &String, key: &String) -> (r: bool)
    ensures
        r == has_feature(p@, section@, key@),
{
    let mut i: usize = 0;
    while i < p.features.len()
        invariant
            i <= p.features.len(),
            forall|k: int|
                0 <= k < i ==> !((#[trigger] p@.features[k]).0 == section@ && p@.features[k].1
                    == key@),
        decreases p.features.len() - i,
    {
        if p.features[i].0.eq(section) && p.features[i].1.eq(key) {
            proof {
                assert(p@.features[i as int].0 == section@ && p@.features[i as int].1 == key@);
            }
            return true;
        }
        i = i + 1;
    }
    false
}

/// Decides [`is_asset_for`] for one entry against one handler entry.
fn parcel_is_asset_for(p: &Parcel, h: &Parcel) -> (r: bool)
    ensures
        r == is_asset_for(p@, h@),
{
    let mut i: usize = 0;
    while i < h.requires.len()
        invariant
            i <= h.requires.len(),
            forall|k: int| 0 <= k < i ==> !p@.member_of.contains(#[trigger] h@.requires[k]),
        decreases h.requires.len() - i,
    {
        if contains_string(&p.member_of, &h.requires[i]) {
            proof {
                assert(p@.member_of.contains(h@.requires[i as int]));
            }
            return true;
        }
        i = i + 1;
    }
    false
}

/// Whether some element of `v` reads as the text `s`.
fn contains_string(v: &Vec<String>, s: &String) -> (r: bool)
    ensures
        r == v.deep_view().contains(s@),
{
    let mut i: usize = 0;
    while i < v.len()
        invariant
            i <= v.len(),
            forall|k: int| 0 <= k < i ==> (#[trigger] v.deep_view()[k]) != s@,
        decreases v.len() - i,
    {
        if v[i].eq(s) {
            proof {
                assert(v.deep_view()[i as int] == s@);
            }
            return true;
        }
        i = i + 1;
    }
    false
}

/// What the given invoice codec yields on given bytes, where it accepts
/// them. A function of the bytes alone.
pub uninterp spec fn parsed_invoice_of(bytes: Seq<u8>) -> Option<InvoiceView>;

/// Verus-side declaration of the outside parcel type that the conversion
/// below takes; the value itself stays opaque.
#[verifier::external_type_specification]
#[verifier::external_body]
pub struct ExBindleParcel(BindleParcel);

/// Relies on bindle's parcel model: carries one entry's name, digest, media
/// type, grouping and flattened feature table over into the library's entry,
/// field for field.
#[verifier::external_body]
fn model_parcel(p: BindleParcel) -> (r: Parcel)
{
    Parcel {
        name: p.label.name,
        sha256: p.label.sha256,
        media_type: p.label.media_type,
        member_of: p.conditions.as_ref().and_then(|c| c.member_of.clone()).unwrap_or_default(),
        requires: p.conditions.and_then(|c| c.requires).unwrap_or_default(),
        features: p.label.feature.unwrap_or_default().into_iter().flat_map(
            |(s, kv)| kv.into_iter().map(move |(k, v)| (s.clone(), k, v)),
        ).collect(),
    }
}

/// Relies on toml's decoder applied to bindle's invoice model: parses the
/// canonical invoice text and carries its identity and entries over into the
/// library's model. The outcome depends on the bytes alone; bytes the codec
/// rejects yield the invoice-shaped error.
#[verifier::external_body]
pub fn parse_invoice(bytes: &Vec<u8>) -> (r: Result<Invoice, EmplacerError>)
    ensures
        match r {
            Ok(inv) => parsed_invoice_of(bytes@) == Some(inv@),
            Err(e) => parsed_invoice_of(bytes@) is None && e is Invoice,
        },
{
    let text = std::str::from_utf8(bytes).map_err(|e| EmplacerError::Invoice(e.to_string()))?;
    let inv: bindle::Invoice = toml::from_str(text).map_err(
        |e| EmplacerError::Invoice(e.to_string()),
    )?;
    let id = InvoiceId {
        name: inv.bindle.id.name().to_string(),
        version: inv.bindle.id.version_string(),
    };
    Ok(Invoice { id, parcels: inv.parcel.unwrap_or_default().into_iter().map(model_parcel).collect() })
}

/// Element-wise copy of a vector of entries, preserving its image.
fn clone_parcels(v: &Vec<Parcel>) -> (r: Vec<Parcel>)
    ensures
        r.deep_view() == v.deep_view(),
{
    let mut r: Vec<Parcel> = Vec::new();
    let mut i: usize = 0;
    while i < v.len()
        invariant
            i <= v.len(),
            r.deep_view() =~= v.deep_view().take(i as int),
        decreases v.len() - i,
    {
        let ghost pre = r.deep_view();
        r.push(v[i].clone());
        proof {
            assert(r.deep_view() =~= pre.push(v@[i as int]@));
            assert(v.deep_view().take(i + 1) =~= v.deep_view().take(i as int).push(v@[i as int]@));
        }
        i = i + 1;
    }
    proof {
        assert(r.deep_view() =~= v.deep_view());
    }
    r
}

/// Element-wise copy of a vector of strings, preserving its image.
fn clone_strings(v: &Vec<String>) -> (r: Vec<String>)
    ensures
        r.deep_view() == v.deep_view(),
{
    let mut r: Vec<String> = Vec::new();
    let mut i: usize = 0;
    while i < v.len()
        invariant
            i <= v.len(),
            r.deep_view() =~= v.deep_view().take(i as int),
        decreases v.len() - i,
    {
        let ghost pre = r.deep_view();
        r.push(v[i].clone());
        proof {
            assert(r.deep_view() =~= pre.push(v@[i as int]@));
            assert(v.deep_view().take(i + 1) =~= v.deep_view().take(i as int).push(v@[i as int]@));
        }
        i = i + 1;
    }
    proof {
        assert(r.deep_view() =~= v.deep_view());
    }
    r
}

/// Element-wise copy of feature triples, preserving their image.
fn clone_triples(v: &Vec<(String, String, String)>) -> (r: Vec<(String, String, String)>)
    ensures
        r.deep_view() == v.deep_view(),
{
    let mut r: Vec<(String, String, String)> = Vec::new();
    let mut i: usize = 0;
    while i < v.len()
        invariant
            i <= v.len(),
            r.deep_view() =~= v.deep_view().take(i as int),
        decreases v.len() - i,
    {
        let ghost pre = r.deep_view();
        let t = (v[i].0.clone(), v[i].1.clone(), v[i].2.clone());
        r.push(t);
        proof {
            assert(t.deep_view() == v@[i as int].deep_view());
            assert(r.deep_view() =~= pre.push(v@[i as int].deep_view()));
            assert(v.deep_view().take(i + 1) =~= v.deep_view().take(i as int).push(
                v@[i as int].deep_view(),
            ));
        }
        i = i + 1;
    }
    proof {
        assert(r.deep_view() =~= v.deep_view());
    }
    r
}

} // verus!
