//! The asset index: the path-to-asset map, its lockstep authenticated map,
//! the insertion policy with directory-index aliasing, the certification
//! header builder, the request handler and the bundle loader.

use crate::hash_tree::{reconstruct, serialized_tree, HashTree, SpecTree};
use crate::hashing::{hash_bytes, labeled_hash, sha256_of};
use crate::order::clone_bytes;
use crate::tree::AssetHashes;
use vstd::prelude::*;

verus! {

/// The UTF-8 encoding of a string; a function of its characters alone.
pub uninterp spec fn utf8_of(s: Seq<char>) -> Seq<u8>;

/// Relies on str::as_bytes: the UTF-8 bytes of the string.
#[verifier::external_body]
fn str_bytes(s: &str) -> (r: Vec<u8>)
    ensures
        r@ == utf8_of(s@),
{
    s.as_bytes().to_vec()
}

/// Whether a byte string is valid UTF-8.
pub uninterp spec fn is_utf8(b: Seq<u8>) -> bool;

/// Relies on String::from_utf8: it succeeds exactly on valid UTF-8, and the
/// returned string's byte encoding is the input.
#[verifier::external_body]
fn bytes_to_string(b: Vec<u8>) -> (r: Option<String>)
    ensures
        r is Some <==> is_utf8(b@),
        r matches Some(s) ==> utf8_of(s@) == b@,
{
    match String::from_utf8(b) {
        Ok(s) => Some(s),
        Err(_) => None,
    }
}

/// The base64 text of a byte string; a function of the bytes alone.
pub uninterp spec fn base64_of(b: Seq<u8>) -> Seq<char>;

/// Relies on base64::encode: standard alphabet, with padding, no line
/// wrapping; the text depends on the input bytes alone.
#[verifier::external_body]
fn base64_encode(b: &[u8]) -> (r: String)
    ensures
        r@ == base64_of(b@),
{
    base64::encode(b)
}

/// The media type guessed from a path's extension, if any; a function of the
/// path alone.
pub uninterp spec fn mime_of(path: Seq<char>) -> Option<Seq<char>>;

/// Relies on mime_guess::from_path and first_raw: the first guess for the
/// path's extension, which depends on the path alone.
#[verifier::external_body]
fn guess_mime_type(path: &str) -> (r: Option<String>)
    ensures
        r is Some <==> mime_of(path@) is Some,
        r matches Some(s) ==> mime_of(path@) == Some(s@),
{
    match mime_guess::from_path(path).first_raw() {
        Some(s) => Some(s.to_string()),
        None => None,
    }
}

/// The mathematical content of an asset.
pub struct AssetView {
    pub headers: Seq<(Seq<char>, Seq<char>)>,
    pub bytes: Seq<u8>,
}

/// The views of a header list.
pub open spec fn header_views(hs: Seq<(String, String)>) -> Seq<(Seq<char>, Seq<char>)> {
    hs.map(|i: int, h: (String, String)| (h.0@, h.1@))
}

/// An asset to be served: response headers to echo verbatim, and the exact
/// payload bytes.
pub struct Asset {
    pub headers: Vec<(String, String)>,
    pub bytes: Vec<u8>,
}

impl View for Asset {
    type V = AssetView;

    open spec fn view(&self) -> AssetView {
        AssetView { headers: header_views(self.headers@), bytes: self.bytes@ }
    }
}

/// Copies a header list.
fn clone_headers(v: &Vec<(String, String)>) -> (r: Vec<(String, String)>)
    ensures
        r@ == v@,
{
    let mut hs: Vec<(String, String)> = Vec::new();
    let mut i: usize = 0;
    while i < v.len()
        invariant
            i <= v@.len(),
            hs@ == v@.take(i as int),
        decreases v@.len() - i,
    {
        let h = &v[i];
        hs.push((h.0.clone(), h.1.clone()));
        proof {
            assert(hs@ =~= v@.take(i + 1));
        }
        i = i + 1;
    }
    proof {
        assert(v@.take(v@.len() as int) =~= v@);
    }
    hs
}

impl Asset {
    /// A headerless asset holding exactly `bytes`.
    pub fn new(bytes: Vec<u8>) -> (a: Asset)
        ensures
            a@.bytes == bytes@,
            a@.headers == Seq::<(Seq<char>, Seq<char>)>::empty(),
    {
        let a = Asset { headers: Vec::new(), bytes };
        proof {
            assert(a@.headers =~= Seq::<(Seq<char>, Seq<char>)>::empty());
        }
        a
    }
}

impl Clone for Asset {
    /// An identical copy: same headers, same bytes.
    fn clone(&self) -> (r: Self)
        ensures
            r@ == self@,
    {
        Asset { headers: clone_headers(&self.headers), bytes: clone_bytes(&self.bytes) }
    }
}

/// The path-to-asset map. Later insertions for a path win.
pub struct Assets {
    entries: Vec<(Vec<u8>, Asset)>,
}

/// The map held by a sequence of keyed entries, later entries winning.
pub open spec fn entries_map(s: Seq<(Vec<u8>, Asset)>) -> Map<Seq<u8>, AssetView>
    decreases s.len(),
{
    if s.len() == 0 {
        Map::empty()
    } else {
        entries_map(s.drop_last()).insert(s.last().0@, s.last().1@)
    }
}

impl View for Assets {
    type V = Map<Seq<u8>, AssetView>;

    closed spec fn view(&self) -> Map<Seq<u8>, AssetView> {
        entries_map(self.entries@)
    }
}

impl Assets {
    /// An empty asset map.
    pub fn new() -> (r: Assets)
        ensures
            r@ == Map::<Seq<u8>, AssetView>::empty(),
    {
        Assets { entries: Vec::new() }
    }

    /// Stores `asset` under the byte key `path`, replacing any earlier asset
    /// there.
    pub fn insert_bytes(&mut self, path: Vec<u8>, asset: Asset)
        ensures
            final(self)@ == old(self)@.insert(path@, asset@),
    {
        let ghost p = path@;
        let ghost a = asset@;
        self.entries.push((path, asset));
        proof {
            assert(self.entries@.drop_last() =~= old(self).entries@);
            assert(self.entries@.last().0@ == p);
            assert(self.entries@.last().1@ == a);
        }
    }

    /// Stores `asset` under `path`, replacing any earlier asset there.
    pub fn insert(&mut self, path: &str, asset: Asset)
        ensures
            final(self)@ == old(self)@.insert(utf8_of(path@), asset@),
    {
        let pb = str_bytes(path);
        self.insert_bytes(pb, asset);
    }

    /// Looks a byte key up: the most recently stored asset for it, if any.
    pub fn get_bytes(&self, path: &[u8]) -> (r: Option<&Asset>)
        ensures
            match r {
                Some(a) => self@.contains_key(path@) && a@ == self@[path@],
                None => !self@.contains_key(path@),
            },
    {
        let mut i: usize = self.entries.len();
        proof {
            assert(self.entries@.take(i as int) =~= self.entries@);
        }
        while i > 0
            invariant
                i <= self.entries@.len(),
                entries_map(self.entries@).contains_key(path@) == entries_map(
                    self.entries@.take(i as int),
                ).contains_key(path@),
                entries_map(self.entries@).contains_key(path@) ==> entries_map(self.entries@)[path@]
                    == entries_map(self.entries@.take(i as int))[path@],
            decreases i,
        {
            let j = i - 1;
            let hit = crate::order::bytes_eq(self.entries[j].0.as_slice(), path);
            proof {
                assert(self.entries@.take(i as int).drop_last() =~= self.entries@.take(j as int));
                assert(self.entries@.take(i as int).last() == self.entries@[j as int]);
            }
            if hit {
                return Some(&self.entries[j].1);
            }
            i = j;
        }
        proof {
            assert(self.entries@.take(0) =~= Seq::<(Vec<u8>, Asset)>::empty());
        }
        None
    }

    /// Looks a path up: the most recently stored asset for it, if any.
    pub fn get(&self, path: &str) -> (r: Option<&Asset>)
        ensures
            match r {
                Some(a) => self@.contains_key(utf8_of(path@)) && a@ == self@[utf8_of(path@)],
                None => !self@.contains_key(utf8_of(path@)),
            },
    {
        let pb = str_bytes(path);
        self.get_bytes(pb.as_slice())
    }
}

impl Default for Assets {
    /// An empty asset map.
    fn default() -> (r: Assets)
        ensures
            r@ == Map::<Seq<u8>, AssetView>::empty(),
    {
        Assets { entries: Vec::new() }
    }
}

/// The label the asset map is published under: "http_assets".
pub open spec fn assets_label() -> Seq<u8> {
    seq![104u8, 116, 116, 112, 95, 97, 115, 115, 101, 116, 115]
}

fn assets_label_vec() -> (r: Vec<u8>)
    ensures
        r@ == assets_label(),
{
    let mut v: Vec<u8> = Vec::new();
    v.push(104);
    v.push(116);
    v.push(116);
    v.push(112);
    v.push(95);
    v.push(97);
    v.push(115);
    v.push(115);
    v.push(101);
    v.push(116);
    v.push(115);
    proof {
        assert(v@ =~= assets_label());
    }
    v
}

/// The byte string "index.html".
pub open spec fn index_suffix() -> Seq<u8> {
    seq![105u8, 110, 100, 101, 120, 46, 104, 116, 109, 108]
}

/// The path's last slash-separated component is exactly "index.html".
pub open spec fn is_index_path(b: Seq<u8>) -> bool {
    &&& b.len() >= 10
    &&& b.subrange(b.len() - 10, b.len() as int) == index_suffix()
    &&& (b.len() == 10 || b[b.len() - 11] == 47)
}

/// The enclosing directory path: `b` with the trailing "index.html" removed.
pub open spec fn dir_of(b: Seq<u8>) -> Seq<u8> {
    b.take(b.len() - 10)
}

fn index_suffix_vec() -> (r: Vec<u8>)
    ensures
        r@ == index_suffix(),
{
    let mut v: Vec<u8> = Vec::new();
    v.push(105);
    v.push(110);
    v.push(100);
    v.push(101);
    v.push(120);
    v.push(46);
    v.push(104);
    v.push(116);
    v.push(109);
    v.push(108);
    proof {
        assert(v@ =~= index_suffix());
    }
    v
}

fn is_index_path_exec(pb: &Vec<u8>) -> (r: bool)
    ensures
        r == is_index_path(pb@),
{
    let n = pb.len();
    if n < 10 {
        return false;
    }
    let s = n - 10;
    let mut tail: Vec<u8> = Vec::new();
    let mut j: usize = 0;
    while j < 10
        invariant
            j <= 10,
            s + 10 == n,
            n == pb@.len(),
            tail@ == pb@.subrange(s as int, s + j),
        decreases 10 - j,
    {
        tail.push(pb[s + j]);
        proof {
            assert(tail@ =~= pb@.subrange(s as int, s + j + 1));
        }
        j = j + 1;
    }
    let suffix = index_suffix_vec();
    let ok = crate::order::bytes_eq(tail.as_slice(), suffix.as_slice());
    if !ok {
        return false;
    }
    if n == 10 {
        true
    } else {
        pb[n - 11] == 47
    }
}

/// The asset map after one insertion: the asset at its path, and also at
/// the enclosing directory path when the path names a directory index.
pub open spec fn insert_assets_spec(
    am: Map<Seq<u8>, AssetView>,
    pb: Seq<u8>,
    a: AssetView,
) -> Map<Seq<u8>, AssetView> {
    if is_index_path(pb) {
        am.insert(dir_of(pb), a).insert(pb, a)
    } else {
        am.insert(pb, a)
    }
}

/// The authenticated map after one insertion, mirroring the asset map.
pub open spec fn insert_hashes_spec(
    hm: Map<Seq<u8>, Seq<u8>>,
    pb: Seq<u8>,
    d: Seq<u8>,
) -> Map<Seq<u8>, Seq<u8>> {
    if is_index_path(pb) {
        hm.insert(dir_of(pb), d).insert(pb, d)
    } else {
        hm.insert(pb, d)
    }
}

/// The asset map and the authenticated map agree: the same paths are held,
/// and each path's digest is the hash of its asset's bytes.
pub open spec fn in_sync(am: Map<Seq<u8>, AssetView>, hm: Map<Seq<u8>, Seq<u8>>) -> bool {
    &&& hm.dom() == am.dom()
    &&& forall|p: Seq<u8>|
        #[trigger] am.dom().contains(p) ==> hm[p] == sha256_of(am[p].bytes)
}

/// The labeled root digest to publish: the root digest of the authenticated
/// map under the asset-map label.
pub fn update_root_hash(a: &AssetHashes) -> (r: [u8; 32])
    requires
        a.well_formed(),
    ensures
        r@ == labeled_hash(assets_label(), a.root_hash_spec()),
{
    let label = assets_label_vec();
    let rh = a.root_hash();
    crate::hashing::hash_labeled(label.as_slice(), &rh)
}

/// Inserts `asset` at `path`. When the path's last component is
/// "index.html" the same asset is also stored, as an independent entry, at
/// the enclosing directory path. The authenticated map is updated in
/// lockstep, and the labeled root digest to publish is returned.
///
/// Overwriting is idempotent: re-inserting a path with the digest it
/// already carries (everywhere it is stored) leaves the root digest
/// unchanged.
pub fn insert_asset(
    assets: &mut Assets,
    asset_hashes: &mut AssetHashes,
    path: &str,
    asset: Asset,
) -> (root: [u8; 32])
    requires
        old(asset_hashes).well_formed(),
    ensures
        final(asset_hashes).well_formed(),
        final(assets)@ == insert_assets_spec(old(assets)@, utf8_of(path@), asset@),
        final(asset_hashes)@ == insert_hashes_spec(
            old(asset_hashes)@,
            utf8_of(path@),
            sha256_of(asset@.bytes),
        ),
        root@ == labeled_hash(assets_label(), final(asset_hashes).root_hash_spec()),
        in_sync(old(assets)@, old(asset_hashes)@) ==> in_sync(
            final(assets)@,
            final(asset_hashes)@,
        ),
        (old(asset_hashes)@.contains_pair(utf8_of(path@), sha256_of(asset@.bytes)) && (
        is_index_path(utf8_of(path@)) ==> old(asset_hashes)@.contains_pair(
            dir_of(utf8_of(path@)),
            sha256_of(asset@.bytes),
        ))) ==> final(asset_hashes).root_hash_spec() == old(asset_hashes).root_hash_spec(),
{
    let pb = str_bytes(path);
    let digest = hash_bytes(asset.bytes.as_slice());
    if is_index_path_exec(&pb) {
        let n = pb.len();
        let mut dir: Vec<u8> = Vec::new();
        let mut j: usize = 0;
        while j < n - 10
            invariant
                n == pb@.len(),
                n >= 10,
                j <= n - 10,
                dir@ == pb@.subrange(0, j as int),
            decreases n - 10 - j,
        {
            dir.push(pb[j]);
            proof {
                assert(dir@ =~= pb@.subrange(0, j + 1));
            }
            j = j + 1;
        }
        proof {
            assert(dir@ == dir_of(pb@));
        }
        asset_hashes.insert(&dir, &digest);
        assets.insert_bytes(dir, asset.clone());
    }
    asset_hashes.insert(&pb, &digest);
    assets.insert_bytes(pb, asset);
    let root = update_root_hash(asset_hashes);
    proof {
        if in_sync(old(assets)@, old(asset_hashes)@) {
            assert(asset_hashes@.dom() =~= assets@.dom());
            assert forall|p: Seq<u8>| #[trigger] assets@.dom().contains(p) implies asset_hashes@[p]
                == sha256_of(assets@[p].bytes) by {
                let pbs = utf8_of(path@);
                if p != pbs && !(is_index_path(pbs) && p == dir_of(pbs)) {
                    assert(assets@[p] == old(assets)@[p]);
                    assert(asset_hashes@[p] == old(asset_hashes)@[p]);
                }
            }
        }
    }
    root
}

/// The authenticated map derived from an asset map: every stored path
/// mapped to the digest of its asset's bytes; the two are in sync.
pub open spec fn digests_of(m: Map<Seq<u8>, AssetView>) -> Map<Seq<u8>, Seq<u8>> {
    Map::new(|k: Seq<u8>| m.dom().contains(k), |k: Seq<u8>| sha256_of(m[k].bytes))
}

impl AssetHashes {
    /// Builds the authenticated map of an asset map from scratch.
    pub fn from_assets(assets: &Assets) -> (r: AssetHashes)
        ensures
            r.well_formed(),
            r@ == digests_of(assets@),
            in_sync(assets@, r@),
    {
        let mut r = AssetHashes::new();
        let mut i: usize = 0;
        proof {
            assert(entries_map(assets.entries@.take(0)) =~= Map::empty());
            assert(r@ =~= digests_of(entries_map(assets.entries@.take(0))));
        }
        while i < assets.entries.len()
            invariant
                i <= assets.entries@.len(),
                r.well_formed(),
                r@ == digests_of(entries_map(assets.entries@.take(i as int))),
            decreases assets.entries@.len() - i,
        {
            let key = clone_bytes(&assets.entries[i].0);
            let digest = hash_bytes(assets.entries[i].1.bytes.as_slice());
            r.insert(&key, &digest);
            proof {
                assert(assets.entries@.take(i + 1).drop_last() =~= assets.entries@.take(i as int));
                assert(assets.entries@.take(i + 1).last() == assets.entries@[i as int]);
                assert(r@ =~= digests_of(entries_map(assets.entries@.take(i + 1))));
            }
            i = i + 1;
        }
        proof {
            assert(assets.entries@.take(assets.entries@.len() as int) =~= assets.entries@);
            assert(r@.dom() =~= assets@.dom());
        }
        r
    }
}

/// The value of the certification header: the platform certificate and the
/// serialized labeled witness, each base64-encoded, in a fixed template.
pub open spec fn cert_header_value(cert: Seq<u8>, w: SpecTree) -> Seq<char> {
    "certificate=:"@ + base64_of(cert) + ":, tree=:"@ + base64_of(
        serialized_tree(SpecTree::Labeled(assets_label(), Box::new(w))),
    ) + ":"@
}

/// Builds the certification header for `asset_name`: the witness for the
/// path is extracted, framed under the asset-map label, serialized
/// canonically, and base64-encoded beside the given certificate.
pub fn make_asset_certificate_header(
    asset_hashes: &AssetHashes,
    asset_name: &str,
    certificate: &Vec<u8>,
) -> (h: (String, String))
    requires
        asset_hashes.well_formed(),
    ensures
        h.0@ == "IC-Certificate"@,
        h.1@ == cert_header_value(certificate@, asset_hashes.witness_spec(utf8_of(asset_name@))),
{
    let name_bytes = str_bytes(asset_name);
    let w = asset_hashes.witness(name_bytes.as_slice());
    let tree = HashTree::Labeled(assets_label_vec(), Box::new(w));
    proof {
        reveal_with_fuel(crate::hash_tree::tree_view, 2);
    }
    let ser = crate::hash_tree::encode_tree(&tree);
    let b64cert = base64_encode(certificate.as_slice());
    let b64tree = base64_encode(ser.as_slice());
    let mut value = String::new();
    value.append("certificate=:");
    value.append(b64cert.as_str());
    value.append(":, tree=:");
    value.append(b64tree.as_str());
    value.append(":");
    proof {
        assert(value@ =~= cert_header_value(
            certificate@,
            asset_hashes.witness_spec(utf8_of(asset_name@)),
        ));
    }
    ("IC-Certificate".to_owned(), value)
}

/// Witness soundness for the published digest: the witness extracted for
/// any path, present or absent, framed under the asset-map label,
/// recomputes to exactly the published labeled root digest.
pub proof fn lemma_witness_sound(asset_hashes: &AssetHashes, pb: Seq<u8>)
    requires
        asset_hashes.well_formed(),
    ensures
        reconstruct(SpecTree::Labeled(assets_label(), Box::new(asset_hashes.witness_spec(pb))))
            == labeled_hash(assets_label(), asset_hashes.root_hash_spec()),
{
    reveal_with_fuel(crate::hash_tree::reconstruct, 2);
    asset_hashes.lemma_witness_reconstructs(pb);
}

/// After an insertion, looking the inserted path up yields exactly the
/// inserted asset.
pub proof fn lemma_insert_lookup(am: Map<Seq<u8>, AssetView>, pb: Seq<u8>, a: AssetView)
    ensures
        insert_assets_spec(am, pb, a).contains_key(pb),
        insert_assets_spec(am, pb, a)[pb] == a,
{
}

/// After inserting a directory-index path, the enclosing directory path
/// holds an asset with the same bytes (and the same headers).
pub proof fn lemma_alias_lookup(am: Map<Seq<u8>, AssetView>, pb: Seq<u8>, a: AssetView)
    requires
        is_index_path(pb),
    ensures
        insert_assets_spec(am, pb, a).contains_key(dir_of(pb)),
        insert_assets_spec(am, pb, a)[dir_of(pb)] == a,
{
    assert(dir_of(pb).len() < pb.len());
}

/// Wherever the two maps are in sync, the digest the authenticated map
/// holds for a stored path is the hash of that path's asset bytes.
pub proof fn lemma_digest_agreement(
    am: Map<Seq<u8>, AssetView>,
    hm: Map<Seq<u8>, Seq<u8>>,
    p: Seq<u8>,
)
    requires
        in_sync(am, hm),
        am.dom().contains(p),
    ensures
        hm.dom().contains(p),
        hm[p] == sha256_of(am[p].bytes),
{
}

/// The request path: everything before the first '?' of the url.
pub open spec fn query_split(u: Seq<char>) -> Seq<char>
    decreases u.len(),
{
    if u.len() == 0 {
        u
    } else if u[0] == '?' {
        Seq::empty()
    } else {
        seq![u[0]] + query_split(u.skip(1))
    }
}

proof fn lemma_query_split_prefix(u: Seq<char>, q: int)
    requires
        0 <= q <= u.len(),
        forall|j: int| 0 <= j < q ==> u[j] != '?',
        q < u.len() ==> u[q] == '?',
    ensures
        query_split(u) == u.take(q),
    decreases q,
{
    if q == 0 {
        assert(query_split(u) =~= u.take(0));
    } else {
        assert(forall|j: int| 0 <= j < q - 1 ==> u.skip(1)[j] == u[j + 1] && u[j + 1] != '?');
        assert(q - 1 < u.skip(1).len() ==> u.skip(1)[q - 1] == u[q]);
        lemma_query_split_prefix(u.skip(1), q - 1);
        assert(query_split(u) =~= u.take(q)) by {
            assert(query_split(u) == seq![u[0]] + u.skip(1).take(q - 1));
            assert(forall|j: int|
                0 <= j < q - 1 ==> #[trigger] u.skip(1).take(q - 1)[j] == u[j + 1]);
        }
    }
}

/// The path's last three characters are "map".
pub open spec fn ends_with_map(p: Seq<char>) -> bool {
    p.len() >= 3 && p[p.len() - 3] == 'm' && p[p.len() - 2] == 'a' && p[p.len() - 1] == 'p'
}

fn ends_with_map_exec(p: &str) -> (r: bool)
    ensures
        r == ends_with_map(p@),
{
    let n = p.unicode_len();
    if n < 3 {
        return false;
    }
    p.get_char(n - 3) == 'm' && p.get_char(n - 2) == 'a' && p.get_char(n - 1) == 'p'
}

/// An incoming request; only the url is consulted here.
pub struct HttpRequest {
    pub method: String,
    pub url: String,
    pub headers: Vec<(String, String)>,
    pub body: Vec<u8>,
}

/// An outgoing response.
pub struct HttpResponse {
    pub status_code: u16,
    pub headers: Vec<(String, String)>,
    pub body: Vec<u8>,
}

/// The headers of a successful response: the asset's own headers, then the
/// certification header, then a content-type header whenever the resolver
/// has a guess for the path — forced to "application/json" when the path
/// ends in "map".
pub open spec fn response_headers(
    ah: Seq<(Seq<char>, Seq<char>)>,
    cert: Seq<u8>,
    w: SpecTree,
    p: Seq<char>,
) -> Seq<(Seq<char>, Seq<char>)> {
    let base = ah.push(("IC-Certificate"@, cert_header_value(cert, w)));
    match mime_of(p) {
        Some(ct) => base.push(
            ("Content-Type"@, if ends_with_map(p) { "application/json"@ } else { ct }),
        ),
        None => base,
    }
}

/// The not-found body: a message naming the path.
pub open spec fn not_found_body(pb: Seq<u8>) -> Seq<u8> {
    seq![65u8, 115, 115, 101, 116, 32] + pb + seq![32u8, 110, 111, 116, 32, 102, 111, 117, 110, 100, 46]
}

/// Serves one request. The url is split at its query string and the path
/// looked up: a hit carries the asset bytes verbatim with the asset's own
/// headers, the certification header and the guessed content type; a miss
/// is a 404 naming the path, with no headers. The certification header is
/// built on both paths, as a witness also proves absence.
pub fn http_request(
    assets: &Assets,
    asset_hashes: &AssetHashes,
    certificate: &Vec<u8>,
    req: HttpRequest,
) -> (resp: HttpResponse)
    requires
        asset_hashes.well_formed(),
    ensures
        ({
            let p = query_split(req.url@);
            let pb = utf8_of(p);
            if assets@.contains_key(pb) {
                &&& resp.status_code == 200
                &&& resp.body@ == assets@[pb].bytes
                &&& header_views(resp.headers@) == response_headers(
                    assets@[pb].headers,
                    certificate@,
                    asset_hashes.witness_spec(pb),
                    p,
                )
            } else {
                &&& resp.status_code == 404
                &&& resp.headers@.len() == 0
                &&& resp.body@ == not_found_body(pb)
            }
        }),
{
    let u: &str = req.url.as_str();
    let n = u.unicode_len();
    let mut i: usize = 0;
    let mut qpos: usize = n;
    let mut found = false;
    while i < n
        invariant
            i <= n,
            n == u@.len(),
            !found ==> qpos == n && forall|j: int| 0 <= j < i ==> u@[j] != '?',
            found ==> qpos < n && u@[qpos as int] == '?' && forall|j: int|
                0 <= j < qpos ==> u@[j] != '?',
        decreases n - i,
    {
        if !found {
            if u.get_char(i) == '?' {
                qpos = i;
                found = true;
            }
        }
        i = i + 1;
    }
    let request_path = u.substring_char(0, qpos);
    proof {
        lemma_query_split_prefix(u@, qpos as int);
        assert(request_path@ == query_split(req.url@));
    }
    let certificate_header = make_asset_certificate_header(asset_hashes, request_path, certificate);
    let found_asset = assets.get(request_path);
    match found_asset {
        Some(asset) => {
            let ghost p = query_split(req.url@);
            let ghost pb = utf8_of(p);
            let mut headers = clone_headers(&asset.headers);
            let ghost base_len = headers@.len();
            headers.push(certificate_header);
            proof {
                assert(header_views(headers@) =~= assets@[pb].headers.push(
                    ("IC-Certificate"@, cert_header_value(
                        certificate@,
                        asset_hashes.witness_spec(pb),
                    )),
                ));
            }
            let ghost base_views = header_views(headers@);
            let mime = guess_mime_type(request_path);
            match mime {
                Some(content_type) => {
                    if ends_with_map_exec(request_path) {
                        headers.push(("Content-Type".to_owned(), "application/json".to_owned()));
                    } else {
                        headers.push(("Content-Type".to_owned(), content_type));
                    }
                    proof {
                        assert(header_views(headers@) =~= response_headers(
                            assets@[pb].headers,
                            certificate@,
                            asset_hashes.witness_spec(pb),
                            p,
                        ));
                    }
                },
                None => {},
            }
            let body = clone_bytes(&asset.bytes);
            HttpResponse { status_code: 200, headers, body }
        },
        None => {
            let pb_vec = str_bytes(request_path);
            let mut body: Vec<u8> = Vec::new();
            body.push(65);
            body.push(115);
            body.push(115);
            body.push(101);
            body.push(116);
            body.push(32);
            crate::hashing::push_slice(&mut body, pb_vec.as_slice());
            body.push(32);
            body.push(110);
            body.push(111);
            body.push(116);
            body.push(32);
            body.push(102);
            body.push(111);
            body.push(117);
            body.push(110);
            body.push(100);
            body.push(46);
            proof {
                assert(body@ =~= not_found_body(utf8_of(request_path@)));
            }
            HttpResponse { status_code: 404, headers: Vec::new(), body }
        },
    }
}

/// Startup failure: the bundle is malformed.
#[derive(Debug, PartialEq, Eq)]
pub enum BundleError {
    NonUtf8Path,
}

/// One leading '.' stripped from a bundle path, when present.
pub open spec fn strip_dot(b: Seq<u8>) -> Seq<u8> {
    if b.len() > 0 && b[0] == 46 {
        b.skip(1)
    } else {
        b
    }
}

fn strip_dot_exec(b: &Vec<u8>) -> (r: Vec<u8>)
    ensures
        r@ == strip_dot(b@),
{
    if b.len() > 0 && b[0] == 46 {
        let mut r: Vec<u8> = Vec::new();
        let mut j: usize = 1;
        while j < b.len()
            invariant
                1 <= j <= b@.len(),
                r@ == b@.subrange(1, j as int),
            decreases b@.len() - j,
        {
            r.push(b[j]);
            proof {
                assert(r@ =~= b@.subrange(1, j + 1));
            }
            j = j + 1;
        }
        proof {
            assert(r@ =~= b@.skip(1));
        }
        r
    } else {
        clone_bytes(b)
    }
}

/// The views of a bundle's entries.
pub open spec fn entry_views(s: Seq<(Vec<u8>, Vec<u8>)>) -> Seq<(Seq<u8>, Seq<u8>)> {
    s.map(|i: int, e: (Vec<u8>, Vec<u8>)| (e.0@, e.1@))
}

/// The asset map after a bundle's entries are inserted in order, each a
/// headerless asset stored at its stripped path.
pub open spec fn load_assets_spec(
    am: Map<Seq<u8>, AssetView>,
    es: Seq<(Seq<u8>, Seq<u8>)>,
) -> Map<Seq<u8>, AssetView>
    decreases es.len(),
{
    if es.len() == 0 {
        am
    } else {
        load_assets_spec(
            insert_assets_spec(
                am,
                strip_dot(es[0].0),
                AssetView { headers: Seq::empty(), bytes: es[0].1 },
            ),
            es.skip(1),
        )
    }
}

/// The authenticated map after the same bundle load.
pub open spec fn load_hashes_spec(
    hm: Map<Seq<u8>, Seq<u8>>,
    es: Seq<(Seq<u8>, Seq<u8>)>,
) -> Map<Seq<u8>, Seq<u8>>
    decreases es.len(),
{
    if es.len() == 0 {
        hm
    } else {
        load_hashes_spec(
            insert_hashes_spec(hm, strip_dot(es[0].0), sha256_of(es[0].1)),
            es.skip(1),
        )
    }
}

/// Loads a decoded bundle. Every entry's path — after one leading '.' is
/// stripped, when present — must be valid UTF-8; otherwise nothing at all
/// is inserted and the load fails. On success every entry is inserted in
/// order and the labeled root digest published last is returned; the root
/// digest is republished once per inserted entry.
pub fn init_assets(
    assets: &mut Assets,
    asset_hashes: &mut AssetHashes,
    entries: &Vec<(Vec<u8>, Vec<u8>)>,
) -> (r: Result<[u8; 32], BundleError>)
    requires
        old(asset_hashes).well_formed(),
    ensures
        final(asset_hashes).well_formed(),
        r is Ok <==> (forall|k: int|
            0 <= k < entries@.len() ==> is_utf8(strip_dot(entries@[k].0@))),
        r is Ok ==> final(assets)@ == load_assets_spec(old(assets)@, entry_views(entries@)),
        r is Ok ==> final(asset_hashes)@ == load_hashes_spec(
            old(asset_hashes)@,
            entry_views(entries@),
        ),
        r matches Ok(root) ==> root@ == labeled_hash(
            assets_label(),
            final(asset_hashes).root_hash_spec(),
        ),
        r is Ok ==> (in_sync(old(assets)@, old(asset_hashes)@) ==> in_sync(
            final(assets)@,
            final(asset_hashes)@,
        )),
        r is Err ==> final(assets)@ == old(assets)@ && final(asset_hashes)@ == old(asset_hashes)@
            && final(asset_hashes).root_hash_spec() == old(asset_hashes).root_hash_spec() && r
            == Result::<[u8; 32], BundleError>::Err(BundleError::NonUtf8Path),
{
    let mut names: Vec<String> = Vec::new();
    let mut i: usize = 0;
    while i < entries.len()
        invariant
            i <= entries@.len(),
            names@.len() == i,
            old(asset_hashes).well_formed(),
            *assets == *old(assets),
            *asset_hashes == *old(asset_hashes),
            forall|k: int| 0 <= k < i ==> #[trigger] is_utf8(strip_dot(entries@[k].0@)),
            forall|k: int|
                0 <= k < i ==> utf8_of(#[trigger] names@[k]@) == strip_dot(entries@[k].0@),
        decreases entries@.len() - i,
    {
        let stripped = strip_dot_exec(&entries[i].0);
        let decoded = bytes_to_string(stripped);
        match decoded {
            Some(s) => {
                let ghost sv = s@;
                names.push(s);
                proof {
                    assert forall|k: int| 0 <= k < i + 1 implies #[trigger] is_utf8(
                        strip_dot(entries@[k].0@),
                    ) by {
                        if k == i {
                            assert(is_utf8(strip_dot(entries@[k].0@)));
                        }
                    }
                    assert forall|k: int| 0 <= k < i + 1 implies utf8_of(#[trigger] names@[k]@)
                        == strip_dot(entries@[k].0@) by {
                        if k == i {
                            assert(names@[k]@ == sv);
                        }
                    }
                }
            },
            None => {
                proof {
                    assert(!is_utf8(strip_dot(entries@[i as int].0@)));
                }
                return Err(BundleError::NonUtf8Path);
            },
        }
        i = i + 1;
    }
    let mut root = update_root_hash(asset_hashes);
    let mut k: usize = 0;
    proof {
        assert(entry_views(entries@).skip(0) =~= entry_views(entries@));
    }
    while k < entries.len()
        invariant
            k <= entries@.len(),
            names@.len() == entries@.len(),
            forall|j: int| 0 <= j < entries@.len() ==> #[trigger] is_utf8(
                strip_dot(entries@[j].0@),
            ),
            forall|j: int|
                0 <= j < entries@.len() ==> utf8_of(#[trigger] names@[j]@) == strip_dot(
                    entries@[j].0@,
                ),
            asset_hashes.well_formed(),
            load_assets_spec(old(assets)@, entry_views(entries@)) == load_assets_spec(
                assets@,
                entry_views(entries@).skip(k as int),
            ),
            load_hashes_spec(old(asset_hashes)@, entry_views(entries@)) == load_hashes_spec(
                asset_hashes@,
                entry_views(entries@).skip(k as int),
            ),
            root@ == labeled_hash(assets_label(), asset_hashes.root_hash_spec()),
            in_sync(old(assets)@, old(asset_hashes)@) ==> in_sync(assets@, asset_hashes@),
        decreases entries@.len() - k,
    {
        let ghost am_before = assets@;
        let ghost hm_before = asset_hashes@;
        let asset = Asset::new(clone_bytes(&entries[k].1));
        let ghost av = asset@;
        proof {
            assert(av == (AssetView { headers: Seq::empty(), bytes: entries@[k as int].1@ }));
        }
        root = insert_asset(assets, asset_hashes, names[k].as_str(), asset);
        proof {
            let es = entry_views(entries@);
            assert(es.skip(k as int)[0] == es[k as int]);
            assert(es.skip(k as int).skip(1) =~= es.skip(k as int + 1));
            assert(assets@ == insert_assets_spec(am_before, strip_dot(es[k as int].0), av));
            assert(load_assets_spec(am_before, es.skip(k as int)) == load_assets_spec(
                assets@,
                es.skip(k as int + 1),
            ));
            assert(load_hashes_spec(hm_before, es.skip(k as int)) == load_hashes_spec(
                asset_hashes@,
                es.skip(k as int + 1),
            ));
        }
        k = k + 1;
    }
    proof {
        assert(entry_views(entries@).skip(entries@.len() as int) =~= Seq::<(
            Seq<u8>,
            Seq<u8>,
        )>::empty());
    }
    Ok(root)
}

} // verus!
