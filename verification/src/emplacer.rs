//! The content-addressed emplacement cache.
//!
//! The cache root holds three regions: a digest-keyed region (one file per
//! unique content digest, shared across all packages), an invoice region (one
//! file per package identity, keyed by a digest derived from the identity, not
//! from content), and a per-package asset region (one subdirectory per
//! identity, holding asset files under their logical names).
//!
//! Everything here is pure decision logic over plain values: which paths the
//! regions assign, which blobs still need fetching against a given disk
//! image, and how a batch of concurrent fetch outcomes settles into the disk
//! image and into one aggregate result. The asynchronous file and network
//! plumbing that drives these decisions lives outside the library.

use vstd::prelude::*;
use vstd::string::StringExecFns;

use crate::error::EmplacerError;
use crate::invoice::{InvoiceId, InvoiceIdView, Parcel, ParcelView, WagiHandlerInfo, WagiHandlerInfoView};

use sha2::{Digest, Sha256};
use std::sync::Arc;

verus! {

/// The digest of a text's UTF-8 bytes, as computed by the backing hash
/// implementation. A function of the text alone.
pub uninterp spec fn sha256_of(text: Seq<char>) -> Seq<u8>;

/// Relies on sha2::Sha256 over the text's UTF-8 bytes: a 32-byte digest that
/// depends on the text alone.
#[verifier::external_body]
fn sha256_digest(text: &String) -> (r: Vec<u8>)
    ensures
        r@ == sha256_of(text@),
        r@.len() == 32,
{
    Sha256::digest(text.as_bytes()).to_vec()
}

/// Relies on String::push: appends one character.
#[verifier::external_body]
fn push_char(s: &mut String, c: char)
    ensures
        final(s)@ == old(s)@.push(c),
{
    s.push(c);
}

/// The lowercase hexadecimal digit for a value below sixteen.
pub open spec fn hex_digit(n: u8) -> char
    recommends
        n < 16,
{
    if n < 10 {
        ((n + 48) as u8) as char
    } else {
        ((n + 87) as u8) as char
    }
}

/// Lowercase hexadecimal text of a byte string, two digits per byte.
pub open spec fn hex_of(bytes: Seq<u8>) -> Seq<char>
    decreases bytes.len(),
{
    if bytes.len() == 0 {
        Seq::empty()
    } else {
        hex_of(bytes.drop_last()) + seq![
            hex_digit(bytes.last() / 16),
            hex_digit(bytes.last() % 16),
        ]
    }
}

/// Hexadecimal text is twice as long as the bytes it renders.
pub proof fn lemma_hex_of_len(bytes: Seq<u8>)
    ensures
        hex_of(bytes).len() == 2 * bytes.len(),
    decreases bytes.len(),
{
    if bytes.len() > 0 {
        lemma_hex_of_len(bytes.drop_last());
    }
}

/// One lowercase hexadecimal digit.
fn hex_digit_char(n: u8) -> (c: char)
    requires
        n < 16,
    ensures
        c == hex_digit(n),
{
    if n < 10 {
        (n + 48) as char
    } else {
        (n + 87) as char
    }
}

/// Renders bytes as lowercase hexadecimal text.
pub fn to_hex(bytes: &Vec<u8>) -> (r: String)
    ensures
        r@ == hex_of(bytes@),
{
    let mut r = String::new();
    let mut i: usize = 0;
    while i < bytes.len()
        invariant
            i <= bytes.len(),
            r@ =~= hex_of(bytes@.take(i as int)),
        decreases bytes.len() - i,
    {
        let b = bytes[i];
        push_char(&mut r, hex_digit_char(b / 16));
        push_char(&mut r, hex_digit_char(b % 16));
        proof {
            assert(bytes@.take(i + 1).drop_last() =~= bytes@.take(i as int));
            assert(bytes@.take(i + 1).last() == bytes@[i as int]);
            assert(r@ =~= hex_of(bytes@.take(i + 1)));
        }
        i = i + 1;
    }
    proof {
        assert(bytes@.take(bytes@.len() as int) =~= bytes@);
    }
    r
}

/// The text whose digest keys an identity's cache entries: "name/version".
pub open spec fn id_text(id: InvoiceIdView) -> Seq<char> {
    id.name + seq!['/'] + id.version
}

/// The derived cache key of a package identity: the hexadecimal digest of
/// "name/version". Derived only from the identity, never from content — two
/// backends serving different bytes under one identity silently diverge from
/// whichever was cached first; an accepted risk, not corrected here.
pub open spec fn spec_invoice_cache_key(id: InvoiceIdView) -> Seq<char> {
    hex_of(sha256_of(id_text(id)))
}

/// Computes the derived cache key of a package identity: 64 lowercase
/// hexadecimal characters.
pub fn invoice_cache_key(id: &InvoiceId) -> (r: String)
    ensures
        r@ == spec_invoice_cache_key(id@),
        r@.len() == 64,
{
    let mut text = id.name.clone();
    push_char(&mut text, '/');
    text.append(id.version.as_str());
    proof {
        assert(text@ =~= id_text(id@));
    }
    let digest = sha256_digest(&text);
    let r = to_hex(&digest);
    proof {
        lemma_hex_of_len(sha256_of(id_text(id@)));
    }
    r
}

/// Two path segments joined by one separator.
pub open spec fn path_join(base: Seq<char>, name: Seq<char>) -> Seq<char> {
    base + seq!['/'] + name
}

/// The invoice region of a cache root.
pub open spec fn spec_invoices_path(cache: Seq<char>) -> Seq<char> {
    path_join(cache, "_MANIFESTS"@)
}

/// The asset region of a cache root.
pub open spec fn spec_asset_path(cache: Seq<char>) -> Seq<char> {
    path_join(cache, "_ASSETS"@)
}

/// The cached invoice file of one identity.
pub open spec fn spec_invoice_path(cache: Seq<char>, id: InvoiceIdView) -> Seq<char> {
    path_join(spec_invoices_path(cache), spec_invoice_cache_key(id))
}

/// The digest-keyed file of one content entry: named by the content's own
/// digest, so a cache hit returns correct bytes by construction.
pub open spec fn spec_module_parcel_path(cache: Seq<char>, p: ParcelView) -> Seq<char> {
    path_join(cache, p.sha256)
}

/// The asset subdirectory of one identity.
pub open spec fn spec_asset_path_for(cache: Seq<char>, id: InvoiceIdView) -> Seq<char> {
    path_join(spec_asset_path(cache), spec_invoice_cache_key(id))
}

/// The asset file of one entry under one identity: keyed by logical name
/// inside the identity's own subdirectory.
pub open spec fn spec_asset_parcel_path(cache: Seq<char>, id: InvoiceIdView, p: ParcelView) -> Seq<
    char,
> {
    path_join(spec_asset_path_for(cache, id), p.name)
}

/// Joins one name onto a base path.
fn join_path(base: &String, name: &str) -> (r: String)
    ensures
        r@ == path_join(base@, name@),
{
    let mut r = base.clone();
    push_char(&mut r, '/');
    r.append(name);
    proof {
        assert(r@ =~= path_join(base@, name@));
    }
    r
}

/// Where the configured handlers come from.
pub enum HandlerConfigurationSource {
    /// A direct module list: nothing to resolve or fetch.
    ModuleConfigFile(String),
    /// A local mirror: base directory and package identity.
    StandaloneBindle(String, InvoiceId),
    /// A remote package server: base address and package identity.
    RemoteBindle(String, InvoiceId),
}

/// Mathematical image of a [`HandlerConfigurationSource`].
pub enum HandlerConfigurationSourceView {
    ModuleConfigFile(Seq<char>),
    StandaloneBindle(Seq<char>, InvoiceIdView),
    RemoteBindle(Seq<char>, InvoiceIdView),
}

impl View for HandlerConfigurationSource {
    type V = HandlerConfigurationSourceView;

    open spec fn view(&self) -> HandlerConfigurationSourceView {
        match self {
            HandlerConfigurationSource::ModuleConfigFile(p) => {
                HandlerConfigurationSourceView::ModuleConfigFile(p@)
            },
            HandlerConfigurationSource::StandaloneBindle(d, id) => {
                HandlerConfigurationSourceView::StandaloneBindle(d@, id@)
            },
            HandlerConfigurationSource::RemoteBindle(u, id) => {
                HandlerConfigurationSourceView::RemoteBindle(u@, id@)
            },
        }
    }
}

/// The emplacement cache: a cache root plus the handler source it serves.
/// Constructed once per process and passed by reference into every
/// operation.
pub struct Emplacer {
    pub cache_path: String,
    pub source: HandlerConfigurationSource,
}

/// Mathematical image of an [`Emplacer`].
pub struct EmplacerView {
    pub cache_path: Seq<char>,
    pub source: HandlerConfigurationSourceView,
}

impl View for Emplacer {
    type V = EmplacerView;

    open spec fn view(&self) -> EmplacerView {
        EmplacerView { cache_path: self.cache_path@, source: self.source@ }
    }
}

/// The execution-layer view of one handler: its module bytes in a shared
/// read-only buffer, plus the volume mounts the guest sees.
pub struct Bits {
    pub wasm_module: Arc<Vec<u8>>,
    pub volume_mounts: Vec<(String, String)>,
}

impl Emplacer {
    /// A cache over the given root directory, serving the given source. The
    /// caller is responsible for the root directory existing before blobs are
    /// materialized under it.
    pub fn new(cache_path: String, source: HandlerConfigurationSource) -> (r: Self)
        ensures
            r@.cache_path == cache_path@,
            r@.source == source@,
    {
        Emplacer { cache_path, source }
    }

    /// Whether this source requires package resolution at all: a direct
    /// module list has nothing to fetch, so emplacement is a no-op on it.
    pub fn needs_emplacement(&self) -> (r: bool)
        ensures
            r == !(self@.source is ModuleConfigFile),
    {
        match &self.source {
            HandlerConfigurationSource::ModuleConfigFile(_) => false,
            HandlerConfigurationSource::StandaloneBindle(_, _) => true,
            HandlerConfigurationSource::RemoteBindle(_, _) => true,
        }
    }

    /// The invoice region of this cache root.
    pub fn invoices_path(&self) -> (r: String)
        ensures
            r@ == spec_invoices_path(self@.cache_path),
    {
        join_path(&self.cache_path, "_MANIFESTS")
    }

    /// The asset region of this cache root.
    pub fn asset_path(&self) -> (r: String)
        ensures
            r@ == spec_asset_path(self@.cache_path),
    {
        join_path(&self.cache_path, "_ASSETS")
    }

    /// The cached invoice file of one identity.
    pub fn invoice_path(&self, invoice_id: &InvoiceId) -> (r: String)
        ensures
            r@ == spec_invoice_path(self@.cache_path, invoice_id@),
    {
        let key = invoice_cache_key(invoice_id);
        join_path(&self.invoices_path(), key.as_str())
    }

    /// The digest-keyed file of one content entry.
    pub fn module_parcel_path(&self, parcel: &Parcel) -> (r: String)
        ensures
            r@ == spec_module_parcel_path(self@.cache_path, parcel@),
    {
        join_path(&self.cache_path, parcel.sha256.as_str())
    }

    /// The asset subdirectory of one identity.
    pub fn asset_path_for(&self, invoice_id: &InvoiceId) -> (r: String)
        ensures
            r@ == spec_asset_path_for(self@.cache_path, invoice_id@),
    {
        let key = invoice_cache_key(invoice_id);
        join_path(&self.asset_path(), key.as_str())
    }

    /// The asset file of one entry under one identity.
    pub fn asset_parcel_path(&self, invoice_id: &InvoiceId, parcel: &Parcel) -> (r: String)
        ensures
            r@ == spec_asset_parcel_path(self@.cache_path, invoice_id@, parcel@),
    {
        join_path(&self.asset_path_for(invoice_id), parcel.name.as_str())
    }

    /// The volume-mount map of one identity: a single entry mapping the
    /// guest's root mount point to the identity's asset subdirectory.
    pub fn asset_dir_volume_mount(&self, invoice_id: &InvoiceId) -> (r: Vec<(String, String)>)
        ensures
            r.deep_view() == seq![
                ("/"@, spec_asset_path_for(self@.cache_path, invoice_id@)),
            ],
    {
        let mut r: Vec<(String, String)> = Vec::new();
        r.push((String::from_str("/"), self.asset_path_for(invoice_id)));
        proof {
            assert(r.deep_view() =~= seq![
                ("/"@, spec_asset_path_for(self@.cache_path, invoice_id@)),
            ]);
        }
        r
    }

    /// Assembles the execution-layer view of one handler from module bytes
    /// already read out of the digest-keyed region: the shared read-only
    /// buffer and the single volume mount onto this package's asset
    /// subdirectory. Performs no fetch itself.
    pub fn bits_for(&self, handler: &WagiHandlerInfo, wasm_module: Vec<u8>) -> (r: Bits)
        ensures
            r.wasm_module@ == wasm_module@,
            r.volume_mounts.deep_view() == seq![
                ("/"@, spec_asset_path_for(self@.cache_path, handler@.invoice_id)),
            ],
    {
        Bits {
            wasm_module: Arc::new(wasm_module),
            volume_mounts: self.asset_dir_volume_mount(&handler.invoice_id),
        }
    }

    /// The emplacement plan of one handler: its module blob into the
    /// digest-keyed region, then each of its assets into this package's
    /// asset subdirectory, in order.
    pub fn placements_for_handler(&self, h: &WagiHandlerInfo) -> (r: Vec<BlobPlacement>)
        ensures
            r.deep_view() == spec_handler_placements(self@.cache_path, h@),
    {
        let mut r: Vec<BlobPlacement> = Vec::new();
        r.push(
            BlobPlacement {
                target_path: self.module_parcel_path(&h.parcel),
                parcel: h.parcel.clone(),
                invoice_id: h.invoice_id.clone(),
                kind: PlacementKind::Module,
            },
        );
        let ghost head = r.deep_view();
        proof {
            assert(head =~= seq![spec_module_placement(self@.cache_path, h@)]);
        }
        let mut i: usize = 0;
        while i < h.asset_parcels.len()
            invariant
                i <= h.asset_parcels.len(),
                head == seq![spec_module_placement(self@.cache_path, h@)],
                r.deep_view() =~= head + spec_asset_placements(
                    self@.cache_path,
                    h@.invoice_id,
                    h@.asset_parcels.take(i as int),
                ),
            decreases h.asset_parcels.len() - i,
        {
            let ghost pre = r.deep_view();
            r.push(
                BlobPlacement {
                    target_path: self.asset_parcel_path(&h.invoice_id, &h.asset_parcels[i]),
                    parcel: h.asset_parcels[i].clone(),
                    invoice_id: h.invoice_id.clone(),
                    kind: PlacementKind::Asset,
                },
            );
            proof {
                assert(r.deep_view() =~= pre.push(
                    spec_asset_placement(
                        self@.cache_path,
                        h@.invoice_id,
                        h@.asset_parcels[i as int],
                    ),
                ));
                assert(h@.asset_parcels.take(i + 1) =~= h@.asset_parcels.take(i as int).push(
                    h@.asset_parcels[i as int],
                ));
                assert(spec_asset_placements(
                    self@.cache_path,
                    h@.invoice_id,
                    h@.asset_parcels.take(i + 1),
                ) =~= spec_asset_placements(
                    self@.cache_path,
                    h@.invoice_id,
                    h@.asset_parcels.take(i as int),
                ).push(
                    spec_asset_placement(
                        self@.cache_path,
                        h@.invoice_id,
                        h@.asset_parcels[i as int],
                    ),
                ));
            }
            i = i + 1;
        }
        proof {
            assert(h@.asset_parcels.take(h@.asset_parcels.len() as int) =~= h@.asset_parcels);
            assert(r.deep_view() =~= spec_handler_placements(self@.cache_path, h@));
        }
        r
    }

    /// The emplacement plan of a whole handler set: the plans of the
    /// handlers, concatenated in order. Across handlers the placements are
    /// independent; the plan carries no ordering obligation beyond the list
    /// order used to report the first failure.
    pub fn placements_for(&self, handlers: &Vec<WagiHandlerInfo>) -> (r: Vec<BlobPlacement>)
        ensures
            r.deep_view() == spec_placements(self@.cache_path, handlers.deep_view()),
    {
        let mut r: Vec<BlobPlacement> = Vec::new();
        let mut i: usize = 0;
        while i < handlers.len()
            invariant
                i <= handlers.len(),
                r.deep_view() =~= spec_placements(
                    self@.cache_path,
                    handlers.deep_view().take(i as int),
                ),
            decreases handlers.len() - i,
        {
            let ghost pre = r.deep_view();
            let mut part = self.placements_for_handler(&handlers[i]);
            let ghost part_v = part.deep_view();
            r.append(&mut part);
            proof {
                assert(r.deep_view() =~= pre + part_v);
                assert(handlers.deep_view().take(i + 1).drop_last() =~= handlers.deep_view().take(
                    i as int,
                ));
                assert(handlers.deep_view().take(i + 1).last() == handlers.deep_view()[i as int]);
                assert(r.deep_view() =~= spec_placements(
                    self@.cache_path,
                    handlers.deep_view().take(i + 1),
                ));
            }
            i = i + 1;
        }
        proof {
            assert(handlers.deep_view().take(handlers@.len() as int) =~= handlers.deep_view());
        }
        r
    }
}

/// Whether a blob lands in the digest-keyed region or in a per-package asset
/// subdirectory.
#[derive(Clone, Copy, PartialEq, Eq, Structural, Debug)]
pub enum PlacementKind {
    Module,
    Asset,
}

/// One blob the plan wants on disk: the entry, where it came from, and the
/// exact target path its region assigns to it.
pub struct BlobPlacement {
    pub target_path: String,
    pub parcel: Parcel,
    pub invoice_id: InvoiceId,
    pub kind: PlacementKind,
}

/// Mathematical image of a [`BlobPlacement`].
pub struct BlobPlacementView {
    pub target_path: Seq<char>,
    pub parcel: ParcelView,
    pub invoice_id: InvoiceIdView,
    pub kind: PlacementKind,
}

impl View for BlobPlacement {
    type V = BlobPlacementView;

    open spec fn view(&self) -> BlobPlacementView {
        BlobPlacementView {
            target_path: self.target_path@,
            parcel: self.parcel@,
            invoice_id: self.invoice_id@,
            kind: self.kind,
        }
    }
}

impl DeepView for BlobPlacement {
    type V = BlobPlacementView;

    open spec fn deep_view(&self) -> BlobPlacementView {
        self.view()
    }
}

impl Clone for BlobPlacement {
    fn clone(&self) -> (r: Self)
        ensures
            r@ == self@,
    {
        BlobPlacement {
            target_path: self.target_path.clone(),
            parcel: self.parcel.clone(),
            invoice_id: self.invoice_id.clone(),
            kind: self.kind,
        }
    }
}

/// The module placement of one handler.
pub open spec fn spec_module_placement(cache: Seq<char>, h: WagiHandlerInfoView) -> BlobPlacementView {
    BlobPlacementView {
        target_path: spec_module_parcel_path(cache, h.parcel),
        parcel: h.parcel,
        invoice_id: h.invoice_id,
        kind: PlacementKind::Module,
    }
}

/// The asset placement of one entry under one identity.
pub open spec fn spec_asset_placement(cache: Seq<char>, id: InvoiceIdView, p: ParcelView) -> BlobPlacementView {
    BlobPlacementView {
        target_path: spec_asset_parcel_path(cache, id, p),
        parcel: p,
        invoice_id: id,
        kind: PlacementKind::Asset,
    }
}

/// The asset placements of a list of entries, in order.
pub open spec fn spec_asset_placements(cache: Seq<char>, id: InvoiceIdView, ps: Seq<ParcelView>) -> Seq<BlobPlacementView> {
    ps.map_values(|p: ParcelView| spec_asset_placement(cache, id, p))
}

/// The emplacement plan of one handler.
pub open spec fn spec_handler_placements(cache: Seq<char>, h: WagiHandlerInfoView) -> Seq<BlobPlacementView> {
    seq![spec_module_placement(cache, h)] + spec_asset_placements(
        cache,
        h.invoice_id,
        h.asset_parcels,
    )
}

/// The emplacement plan of a handler list.
pub open spec fn spec_placements(cache: Seq<char>, hs: Seq<WagiHandlerInfoView>) -> Seq<BlobPlacementView>
    decreases hs.len(),
{
    if hs.len() == 0 {
        Seq::empty()
    } else {
        spec_placements(cache, hs.drop_last()) + spec_handler_placements(cache, hs.last())
    }
}

/// In-memory image of the cache root's files: one byte string per path.
/// Mutated only by inserting, mirroring the append-only shared-storage rule
/// under which skip-if-exists is the only mutation decision.
pub struct CacheDisk {
    files: vstd::hash_map::StringHashMap<Vec<u8>>,
}

impl View for CacheDisk {
    type V = Map<Seq<char>, Seq<u8>>;

    closed spec fn view(&self) -> Map<Seq<char>, Seq<u8>> {
        Map::new(|k: Seq<char>| self.files@.contains_key(k), |k: Seq<char>| self.files@[k]@)
    }
}

impl CacheDisk {
    /// An empty cache root.
    pub fn new() -> (r: Self)
        ensures
            r@ == Map::<Seq<char>, Seq<u8>>::empty(),
    {
        let r = CacheDisk { files: vstd::hash_map::StringHashMap::new() };
        proof {
            assert(r@ =~= Map::<Seq<char>, Seq<u8>>::empty());
        }
        r
    }

    /// Whether a file exists at the given path. Existence short-circuits any
    /// fetch: presence implies "good enough", never re-validation.
    pub fn has_file(&self, path: &String) -> (r: bool)
        ensures
            r == self@.contains_key(path@),
    {
        self.files.contains_key(path.as_str())
    }

    /// The bytes at the given path, if any.
    pub fn file_contents(&self, path: &String) -> (r: Option<&Vec<u8>>)
        ensures
            match r {
                Some(v) => self@.contains_key(path@) && v@ == self@[path@],
                None => !self@.contains_key(path@),
            },
    {
        self.files.get(path.as_str())
    }

    /// Materializes bytes at the given path.
    pub fn write_file(&mut self, path: String, bytes: Vec<u8>)
        ensures
            final(self)@ == old(self)@.insert(path@, bytes@),
    {
        let ghost pv = path@;
        let ghost bv = bytes@;
        self.files.insert(path, bytes);
        proof {
            assert(self@ =~= old(self)@.insert(pv, bv));
        }
    }
}

/// The blobs of a plan that are absent from a disk image, in plan order:
/// exactly the ones a run must fetch. A blob whose target path already
/// exists is skipped without any backend call.
pub open spec fn absent_pred(disk: Map<Seq<char>, Seq<u8>>) -> spec_fn(BlobPlacementView) -> bool {
    |p: BlobPlacementView| !disk.contains_key(p.target_path)
}

/// See [`absent_pred`]: the still-to-fetch sublist of a plan.
pub open spec fn spec_pending(ps: Seq<BlobPlacementView>, disk: Map<Seq<char>, Seq<u8>>) -> Seq<BlobPlacementView> {
    ps.filter(absent_pred(disk))
}

/// Selects, in plan order, the placements whose target file is absent: the
/// fetch set of one run. Everything already present is skipped.
pub fn pending_placements(ps: &Vec<BlobPlacement>, disk: &CacheDisk) -> (r: Vec<BlobPlacement>)
    ensures
        r.deep_view() == spec_pending(ps.deep_view(), disk@),
{
    broadcast use {vstd::seq_lib::group_filter_ensures, vstd::seq::Seq::lemma_filter_push};

    let mut r: Vec<BlobPlacement> = Vec::new();
    let mut i: usize = 0;
    while i < ps.len()
        invariant
            i <= ps.len(),
            r.deep_view() =~= spec_pending(ps.deep_view().take(i as int), disk@),
        decreases ps.len() - i,
    {
        let ghost pre = r.deep_view();
        if !disk.has_file(&ps[i].target_path) {
            r.push(ps[i].clone());
            proof {
                assert(r.deep_view() =~= pre.push(ps.deep_view()[i as int]));
            }
        }
        proof {
            assert(ps.deep_view().take(i + 1) =~= ps.deep_view().take(i as int).push(
                ps.deep_view()[i as int],
            ));
            ps.deep_view().take(i as int).lemma_filter_push(
                ps.deep_view()[i as int],
                absent_pred(disk@),
            );
        }
        i = i + 1;
    }
    proof {
        assert(ps.deep_view().take(ps@.len() as int) =~= ps.deep_view());
    }
    r
}

/// The disk image after a batch of fetch outcomes settles: every successful
/// outcome's bytes stand at its target path; failures leave no trace.
pub open spec fn spec_settle_files(
    disk: Map<Seq<char>, Seq<u8>>,
    outcomes: Seq<(BlobPlacement, Result<Vec<u8>, EmplacerError>)>,
) -> Map<Seq<char>, Seq<u8>>
    decreases outcomes.len(),
{
    if outcomes.len() == 0 {
        disk
    } else {
        let rest = spec_settle_files(disk, outcomes.drop_last());
        match outcomes.last().1 {
            Ok(bytes) => rest.insert(outcomes.last().0@.target_path, bytes@),
            Err(_) => rest,
        }
    }
}

/// The first failure of a batch, in batch order, if any.
pub open spec fn spec_first_failure(
    outcomes: Seq<(BlobPlacement, Result<Vec<u8>, EmplacerError>)>,
) -> Option<EmplacerError>
    decreases outcomes.len(),
{
    if outcomes.len() == 0 {
        None
    } else {
        match spec_first_failure(outcomes.drop_last()) {
            Some(e) => Some(e),
            None => match outcomes.last().1 {
                Ok(_) => None,
                Err(e) => Some(e),
            },
        }
    }
}

/// The aggregate result of a batch: success only if every outcome
/// succeeded, otherwise the first observed failure.
pub open spec fn spec_settle_result(
    outcomes: Seq<(BlobPlacement, Result<Vec<u8>, EmplacerError>)>,
) -> Result<(), EmplacerError> {
    match spec_first_failure(outcomes) {
        None => Ok(()),
        Some(e) => Err(e),
    }
}

/// Settles a batch of concurrent fetch outcomes into the disk image: writes
/// every successful outcome's bytes at its target path, then reports the
/// first observed failure as the overall result — without cancelling or
/// rolling back work that succeeded. Completed blobs remain cached even when
/// the batch as a whole reports failure.
pub fn settle_placements(
    disk: &mut CacheDisk,
    outcomes: Vec<(BlobPlacement, Result<Vec<u8>, EmplacerError>)>,
) -> (r: Result<(), EmplacerError>)
    ensures
        final(disk)@ == spec_settle_files(old(disk)@, outcomes@),
        r == spec_settle_result(outcomes@),
{
    let ghost orig = outcomes@;
    let mut rest = outcomes;
    let ghost mut k: int = 0;
    let mut first_err: Option<EmplacerError> = None;
    while rest.len() != 0
        invariant
            0 <= k <= orig.len(),
            rest@ =~= orig.skip(k),
            disk@ == spec_settle_files(old(disk)@, orig.take(k)),
            first_err == spec_first_failure(orig.take(k)),
        decreases orig.len() - k,
    {
        let (placement, outcome) = rest.remove(0);
        proof {
            assert(orig.skip(k)[0] == orig[k]);
            assert(rest@ =~= orig.skip(k + 1));
            assert(orig.take(k + 1).drop_last() =~= orig.take(k));
            assert(orig.take(k + 1).last() == orig[k]);
        }
        match outcome {
            Ok(bytes) => {
                disk.write_file(placement.target_path, bytes);
            },
            Err(e) => {
                if first_err.is_none() {
                    first_err = Some(e);
                }
            },
        }
        proof {
            k = k + 1;
        }
    }
    proof {
        assert(orig.take(orig.len() as int) =~= orig);
    }
    match first_err {
        None => Ok(()),
        Some(e) => Err(e),
    }
}

/// The first failed outcome of a list of unit results, in order, if any.
pub open spec fn spec_first_error(outcomes: Seq<Result<(), EmplacerError>>) -> Result<(), EmplacerError>
    decreases outcomes.len(),
{
    if outcomes.len() == 0 {
        Ok(())
    } else {
        match spec_first_error(outcomes.drop_last()) {
            Err(e) => Err(e),
            Ok(_) => match outcomes.last() {
                Ok(_) => Ok(()),
                Err(e) => Err(e),
            },
        }
    }
}

/// Reduces joined concurrent results to one: success only if all succeeded,
/// otherwise the first observed failure. Later outcomes are neither
/// cancelled nor undone.
pub fn first_error(outcomes: &Vec<Result<(), EmplacerError>>) -> (r: Result<(), EmplacerError>)
    ensures
        r == spec_first_error(outcomes@),
{
    let mut i: usize = 0;
    while i < outcomes.len()
        invariant
            i <= outcomes.len(),
            spec_first_error(outcomes@.take(i as int)) == Ok::<(), EmplacerError>(()),
        decreases outcomes.len() - i,
    {
        proof {
            assert(outcomes@.take(i + 1).drop_last() =~= outcomes@.take(i as int));
            assert(outcomes@.take(i + 1).last() == outcomes@[i as int]);
        }
        match &outcomes[i] {
            Ok(_) => {
                proof {
                    lemma_first_error_step(outcomes@, i as int);
                }
            },
            Err(e) => {
                let ghost j: int = i as int;
                let r = Err::<(), EmplacerError>(e.clone());
                proof {
                    lemma_first_error_stays(outcomes@, j);
                }
                return r;
            },
        }
        i = i + 1;
    }
    proof {
        assert(outcomes@.take(outcomes@.len() as int) =~= outcomes@);
    }
    Ok(())
}

/// A success extends a failure-free prefix into a failure-free prefix.
proof fn lemma_first_error_step(s: Seq<Result<(), EmplacerError>>, i: int)
    requires
        0 <= i < s.len(),
        spec_first_error(s.take(i)) == Ok::<(), EmplacerError>(()),
        s[i] is Ok,
    ensures
        spec_first_error(s.take(i + 1)) == Ok::<(), EmplacerError>(()),
{
    let t = s.take(i + 1);
    assert(t.drop_last() =~= s.take(i));
    assert(t.last() == s[i]);
}

/// Spec-level projection of a fetch batch onto the placements it settles.
pub open spec fn placement_views(
    outcomes: Seq<(BlobPlacement, Result<Vec<u8>, EmplacerError>)>,
) -> Seq<BlobPlacementView> {
    outcomes.map_values(|o: (BlobPlacement, Result<Vec<u8>, EmplacerError>)| o.0@)
}

/// Settling never removes a file: whatever the cache root held before a
/// batch, it still holds afterwards. The cache is append-only by design.
pub proof fn lemma_settle_preserves(
    disk: Map<Seq<char>, Seq<u8>>,
    outcomes: Seq<(BlobPlacement, Result<Vec<u8>, EmplacerError>)>,
    path: Seq<char>,
)
    requires
        disk.contains_key(path),
    ensures
        spec_settle_files(disk, outcomes).contains_key(path),
    decreases outcomes.len(),
{
    if outcomes.len() > 0 {
        lemma_settle_preserves(disk, outcomes.drop_last(), path);
    }
}

/// Partial-failure containment: every outcome that succeeded stands on disk
/// after the batch settles, even when other outcomes failed and the batch as
/// a whole reports their failure.
pub proof fn lemma_partial_failure_containment(
    disk: Map<Seq<char>, Seq<u8>>,
    outcomes: Seq<(BlobPlacement, Result<Vec<u8>, EmplacerError>)>,
    i: int,
)
    requires
        0 <= i < outcomes.len(),
        outcomes[i].1 is Ok,
    ensures
        spec_settle_files(disk, outcomes).contains_key(outcomes[i].0@.target_path),
    decreases outcomes.len(),
{
    if i < outcomes.len() - 1 {
        assert(outcomes.drop_last()[i] == outcomes[i]);
        lemma_partial_failure_containment(disk, outcomes.drop_last(), i);
    }
}

/// What a batch leaves at a path: an outcome that fetched bytes for a path
/// and was not overwritten by a later successful outcome on the same path
/// determines the file's exact contents afterwards.
pub proof fn lemma_settle_value(
    disk: Map<Seq<char>, Seq<u8>>,
    outcomes: Seq<(BlobPlacement, Result<Vec<u8>, EmplacerError>)>,
    i: int,
)
    requires
        0 <= i < outcomes.len(),
        outcomes[i].1 is Ok,
        forall|j: int|
            i < j < outcomes.len() ==> (#[trigger] outcomes[j]).0@.target_path
                != outcomes[i].0@.target_path || !(outcomes[j].1 is Ok),
    ensures
        spec_settle_files(disk, outcomes)[outcomes[i].0@.target_path]
            == outcomes[i].1->Ok_0@,
    decreases outcomes.len(),
{
    if i < outcomes.len() - 1 {
        assert(outcomes.drop_last()[i] == outcomes[i]);
        lemma_settle_value(disk, outcomes.drop_last(), i);
    }
}

/// A plan whose every target is already present pends nothing: existence
/// short-circuits every fetch.
pub proof fn lemma_pending_empty_when_present(
    ps: Seq<BlobPlacementView>,
    disk: Map<Seq<char>, Seq<u8>>,
)
    requires
        forall|i: int| 0 <= i < ps.len() ==> disk.contains_key((#[trigger] ps[i]).target_path),
    ensures
        spec_pending(ps, disk) == Seq::<BlobPlacementView>::empty(),
{
    let pred = absent_pred(disk);
    assert(ps.all(|x: BlobPlacementView| !pred(x)));
    ps.lemma_all_neg_filter_empty(pred);
    assert(spec_pending(ps, disk) =~= Seq::<BlobPlacementView>::empty());
}

/// A batch made only of successes settles to a success.
proof fn lemma_no_failure(outcomes: Seq<(BlobPlacement, Result<Vec<u8>, EmplacerError>)>)
    requires
        forall|i: int| 0 <= i < outcomes.len() ==> (#[trigger] outcomes[i]).1 is Ok,
    ensures
        spec_first_failure(outcomes) is None,
    decreases outcomes.len(),
{
    if outcomes.len() > 0 {
        assert(forall|i: int|
            0 <= i < outcomes.drop_last().len() ==> (#[trigger] outcomes.drop_last()[i]).1 is Ok);
        lemma_no_failure(outcomes.drop_last());
    }
}

/// Idempotence of emplacement: when a run fetched exactly the blobs of a
/// plan that were absent, and every fetch succeeded, then against the
/// settled cache root the same plan pends nothing — a second run performs
/// zero backend fetches and writes nothing — and the run itself reported
/// success.
pub proof fn lemma_emplacement_idempotent(
    ps: Seq<BlobPlacementView>,
    disk: Map<Seq<char>, Seq<u8>>,
    outcomes: Seq<(BlobPlacement, Result<Vec<u8>, EmplacerError>)>,
)
    requires
        placement_views(outcomes) == spec_pending(ps, disk),
        forall|i: int| 0 <= i < outcomes.len() ==> (#[trigger] outcomes[i]).1 is Ok,
    ensures
        spec_pending(ps, spec_settle_files(disk, outcomes)) == Seq::<BlobPlacementView>::empty(),
        spec_settle_result(outcomes) == Ok::<(), EmplacerError>(()),
        spec_settle_files(spec_settle_files(disk, outcomes), Seq::empty())
            == spec_settle_files(disk, outcomes),
{
    let disk2 = spec_settle_files(disk, outcomes);
    assert forall|i: int| 0 <= i < ps.len() implies disk2.contains_key(
        (#[trigger] ps[i]).target_path,
    ) by {
        if disk.contains_key(ps[i].target_path) {
            lemma_settle_preserves(disk, outcomes, ps[i].target_path);
        } else {
            assert(absent_pred(disk)(ps[i]));
            ps.lemma_filter_contains(absent_pred(disk), i);
            assert(spec_pending(ps, disk).contains(ps[i]));
            let j = choose|j: int|
                0 <= j < spec_pending(ps, disk).len() && spec_pending(ps, disk)[j] == ps[i];
            assert(placement_views(outcomes)[j] == ps[i]);
            assert(outcomes[j].0@ == ps[i]);
            lemma_partial_failure_containment(disk, outcomes, j);
        }
    }
    lemma_pending_empty_when_present(ps, disk2);
    lemma_no_failure(outcomes);
}

/// Content dedup: the digest-keyed region assigns one and the same file to
/// any two entries with equal content digests, whatever packages reference
/// them — so their cached module bytes are one file, read back identically.
pub proof fn lemma_content_dedup(cache: Seq<char>, p: ParcelView, q: ParcelView)
    requires
        p.sha256 == q.sha256,
    ensures
        spec_module_parcel_path(cache, p) == spec_module_parcel_path(cache, q),
{
}

/// Whether `path` names an entry strictly inside the directory `dir`.
pub open spec fn is_under_dir(dir: Seq<char>, path: Seq<char>) -> bool {
    path.len() > dir.len() && path.take(dir.len() as int) == dir && path[dir.len() as int] == '/'
}

/// Asset isolation: an asset file of package `a` lies inside `a`'s own asset
/// subdirectory, and never inside that of a package `b` whose derived cache
/// key differs from `a`'s. Derived keys always render with one fixed length,
/// so the only case left out is a digest collision between two identities.
pub proof fn lemma_asset_isolation(
    cache: Seq<char>,
    a: InvoiceIdView,
    b: InvoiceIdView,
    p: ParcelView,
)
    requires
        spec_invoice_cache_key(a) != spec_invoice_cache_key(b),
        spec_invoice_cache_key(a).len() == spec_invoice_cache_key(b).len(),
    ensures
        is_under_dir(spec_asset_path_for(cache, a), spec_asset_parcel_path(cache, a, p)),
        !is_under_dir(spec_asset_path_for(cache, b), spec_asset_parcel_path(cache, a, p)),
{
    let ka = spec_invoice_cache_key(a);
    let kb = spec_invoice_cache_key(b);
    let pre = spec_asset_path(cache) + seq!['/'];
    let da = spec_asset_path_for(cache, a);
    let db = spec_asset_path_for(cache, b);
    let pa = spec_asset_parcel_path(cache, a, p);
    assert(da =~= pre + ka);
    assert(db =~= pre + kb);
    assert(pa =~= da + seq!['/'] + p.name);
    assert(pa.take(da.len() as int) =~= da);
    assert(pa[da.len() as int] == '/');
    assert(is_under_dir(da, pa));
    if is_under_dir(db, pa) {
        assert(da.len() == db.len());
        assert(pa.take(db.len() as int) == db);
        assert(da == db);
        assert(ka =~= kb) by {
            assert forall|i: int| 0 <= i < ka.len() implies ka[i] == kb[i] by {
                assert(da[pre.len() + i] == ka[i]);
                assert(db[pre.len() + i] == kb[i]);
            }
        }
        assert(false);
    }
}

/// Once a prefix ends in a failure, the whole list's first failure is that
/// one.
proof fn lemma_first_error_stays(outcomes: Seq<Result<(), EmplacerError>>, j: int)
    requires
        0 <= j < outcomes.len(),
        spec_first_error(outcomes.take(j)) == Ok::<(), EmplacerError>(()),
        outcomes[j] is Err,
    ensures
        spec_first_error(outcomes) == outcomes[j],
    decreases outcomes.len(),
{
    if outcomes.len() == j + 1 {
        assert(outcomes.take(j) =~= outcomes.drop_last());
    } else {
        assert(outcomes.drop_last().take(j) =~= outcomes.take(j));
        lemma_first_error_stays(outcomes.drop_last(), j);
    }
}

} // verus!


