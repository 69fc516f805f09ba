//! Embedding and reading. An asset carries its manifests in a trailing
//! record: the encoded store entries, their byte length, and a closing
//! marker. Embedding appends one signed manifest to the entries already
//! present; parsing recovers content and entries exactly.

use vstd::prelude::*;
use vstd::bytes::{spec_u64_from_le_bytes, lemma_auto_spec_u64_to_from_le_bytes};
use crate::codec::{
    enc_entries, dec_entries, enc_str, enc_str_into, enc_u64_into, dec_u64_at, lemma_dec_enc_entries,
    lemma_skip_skip, enc_manifest, push_all,
};
use crate::digest::{ContentDigest, digest_of, compute_digest};
use crate::error::Error;
use crate::manifest::{
    Manifest, ManifestModel, IngredientReference, enc_manifest_into, dec_manifest_at,
};
use crate::text::{decimal_of, u64_to_decimal};

verus! {

/// The eight closing bytes of an embedded manifest record.
pub open spec fn magic() -> Seq<u8> {
    seq![0x43u8, 0x32u8, 0x50u8, 0x41u8, 0x4du8, 0x41u8, 0x4eu8, 0x46u8]
}

/// Splits an asset into its content and its embedded record, when the asset
/// ends in a well-formed record.
pub open spec fn split_asset(b: Seq<u8>) -> Option<(Seq<u8>, Seq<u8>)> {
    if b.len() >= 16 && b.subrange(b.len() - 8, b.len() as int) == magic() {
        let blob_len = spec_u64_from_le_bytes(b.subrange(b.len() - 16, b.len() - 8)) as int;
        if blob_len + 16 <= b.len() {
            Some(
                (
                    b.take(b.len() - 16 - blob_len),
                    b.subrange(b.len() - 16 - blob_len, b.len() - 16),
                ),
            )
        } else {
            None
        }
    } else {
        None
    }
}

/// The manifest entries an asset carries, oldest first: the record's
/// entries, fully consumed, or nothing.
pub open spec fn parse_store(b: Seq<u8>) -> Option<Seq<(Seq<char>, ManifestModel)>> {
    match split_asset(b) {
        Some((_, blob)) => match dec_entries(blob, (blob.len() + 1) as nat) {
            Some((es, n)) => {
                if n == blob.len() {
                    Some(es)
                } else {
                    None
                }
            },
            None => None,
        },
        None => None,
    }
}

/// The content bytes of an asset: all of it, or the part before a record
/// that parses.
pub open spec fn content_of(b: Seq<u8>) -> Seq<u8> {
    if parse_store(b) is Some {
        split_asset(b).unwrap().0
    } else {
        b
    }
}

/// The label given to the `n`-th embedded manifest.
pub open spec fn label_of_index(n: nat) -> Seq<char> {
    "urn:manifest:"@ + decimal_of(n)
}

/// The instance identifier of an asset version: derived from the digest of
/// all its bytes.
pub open spec fn instance_id_of(b: Seq<u8>) -> Seq<char> {
    "urn:asset:"@ + decimal_of(digest_of(b).sum as nat) + seq![':'] + decimal_of(
        digest_of(b).len as nat,
    )
}

/// The view of exec store entries.
pub open spec fn entries_view(v: Seq<(String, Manifest)>) -> Seq<(Seq<char>, ManifestModel)> {
    v.map_values(|e: (String, Manifest)| (e.0@, e.1@))
}

/// Copies `b[from..to]` out.
fn copy_range(b: &Vec<u8>, from: usize, to: usize) -> (r: Vec<u8>)
    requires
        from <= to <= b@.len(),
    ensures
        r@ == b@.subrange(from as int, to as int),
{
    let mut out: Vec<u8> = Vec::new();
    let mut i: usize = from;
    while i < to
        invariant
            from <= i <= to <= b@.len(),
            out@ == b@.subrange(from as int, i as int),
        decreases to - i,
    {
        out.push(b[i]);
        proof {
            assert(b@.subrange(from as int, i as int).push(b@[i as int]) =~= b@.subrange(
                from as int,
                i as int + 1,
            ));
        }
        i = i + 1;
    }
    out
}

/// Reads entries at `pos`, appending them to `acc`. On `None`, what `acc`
/// holds is unspecified.
#[verifier::spinoff_prover]
#[verifier::rlimit(100)]
fn dec_entries_acc(b: &Vec<u8>, pos: usize, fuel: u64, acc: &mut Vec<(String, Manifest)>) -> (r:
    Option<usize>)
    requires
        pos <= b@.len(),
    ensures
        ({
            let d = dec_entries(b@.skip(pos as int), fuel as nat);
            match r {
                Some(np) => d matches Some(dv) && entries_view(final(acc)@) == entries_view(
                    old(acc)@,
                ) + dv.0 && np as int == pos + dv.1 && pos <= np && np <= b@.len(),
                None => d is None,
            }
        }),
    decreases fuel,
{
    if fuel == 0 {
        return None;
    }
    if b.len() - pos < 1 {
        return None;
    }
    let tag = b[pos];
    proof {
        assert(b@.skip(pos as int)[0] == b@[pos as int]);
    }
    if tag == 0 {
        proof {
            assert(entries_view(acc@) =~= entries_view(acc@) + Seq::<(
                Seq<char>,
                ManifestModel,
            )>::empty());
        }
        return Some(pos + 1);
    }
    if tag != 1 {
        return None;
    }
    proof {
        lemma_skip_skip(b@, pos as int, 1);
    }
    let (l, p1) = match crate::codec::dec_str_at(b, pos + 1) {
        Some(x) => x,
        None => {
            return None;
        },
    };
    let ghost n1 = p1 - pos - 1;
    proof {
        lemma_skip_skip(b@, pos as int, 1 + n1);
        assert(b@.skip(pos as int).skip(1 + n1) == b@.skip(p1 as int));
    }
    let (m, p2) = match dec_manifest_at(b, p1, fuel - 1) {
        Some(x) => x,
        None => {
            return None;
        },
    };
    let ghost n2 = p2 - p1;
    proof {
        lemma_skip_skip(b@, pos as int, 1 + n1 + n2);
        assert(b@.skip(pos as int).skip(1 + n1 + n2) == b@.skip(p2 as int));
    }
    let ghost before = acc@;
    acc.push((l, m));
    let r = dec_entries_acc(b, p2, fuel - 1, acc);
    match r {
        Some(np) => {
            proof {
                let s = b@.skip(pos as int);
                let dt = dec_entries(s.skip(1 + n1 + n2), (fuel - 1) as nat);
                assert(dt is Some);
                let t = dt.unwrap().0;
                assert(dec_entries(s, fuel as nat) == Some(
                    (seq![(l@, m@)] + t, 1 + n1 + n2 + dt.unwrap().1),
                ));
                assert(entries_view(before.push((l, m))) =~= entries_view(before) + seq![(l@, m@)]);
                assert(entries_view(acc@) =~= entries_view(before) + (seq![(l@, m@)] + t));
            }
            Some(np)
        },
        None => None,
    }
}

/// Appends the wire form of the entries from index `from` on.
fn enc_entries_from(v: &Vec<(String, Manifest)>, from: usize, out: &mut Vec<u8>)
    requires
        from <= v@.len(),
    ensures
        final(out)@ == old(out)@ + enc_entries(entries_view(v@).skip(from as int)),
    decreases v@.len() - from,
{
    let ghost es = entries_view(v@).skip(from as int);
    proof {
        assert(entries_view(v@).len() == v@.len());
    }
    if from == v.len() {
        out.push(0u8);
        proof {
            assert(es =~= Seq::<(Seq<char>, ManifestModel)>::empty());
            assert(out@ =~= old(out)@ + seq![0u8]);
        }
    } else {
        out.push(1u8);
        enc_str_into(&v[from].0, out);
        enc_manifest_into(&v[from].1, out);
        enc_entries_from(v, from + 1, out);
        proof {
            assert(entries_view(v@)[from as int] == (v@[from as int].0@, v@[from as int].1@));
            assert(es[0] == entries_view(v@)[from as int]);
            assert(es.drop_first() =~= entries_view(v@).skip(from as int + 1));
            assert(out@ =~= old(out)@ + (seq![1u8] + enc_str(es[0].0) + enc_manifest(es[0].1)
                + enc_entries(es.drop_first())));
        }
    }
}

/// Splits an asset: the end of its content and its decoded entries, when a
/// record is present.
fn extract_store(b: &Vec<u8>) -> (r: Option<(usize, Vec<(String, Manifest)>)>)
    ensures
        ({
            match r {
                Some((clen, es)) => ({
                    &&& split_asset(b@) matches Some(sp) && clen as int == sp.0.len() && sp.0
                        == b@.take(clen as int)
                    &&& parse_store(b@) matches Some(pes) && entries_view(es@) == pes
                }),
                None => parse_store(b@) is None,
            }
        }),
{
    if b.len() < 16 {
        return None;
    }
    let n = b.len();
    let ok = b[n - 8] == 0x43u8 && b[n - 7] == 0x32u8 && b[n - 6] == 0x50u8 && b[n - 5] == 0x41u8
        && b[n - 4] == 0x4du8 && b[n - 3] == 0x41u8 && b[n - 2] == 0x4eu8 && b[n - 1] == 0x46u8;
    proof {
        if ok {
            assert(b@.subrange(b@.len() - 8, b@.len() as int) =~= magic());
        } else {
            assert(b@.subrange(b@.len() - 8, b@.len() as int) != magic()) by {
                if b@.subrange(b@.len() - 8, b@.len() as int) == magic() {
                    assert(forall|k: int|
                        0 <= k < 8 ==> b@.subrange(b@.len() - 8, b@.len() as int)[k] == magic()[k]);
                    assert(false);
                }
            }
        }
    }
    if !ok {
        return None;
    }
    let (blob_len, _) = match dec_u64_at(b, n - 16) {
        Some(x) => x,
        None => {
            return None;
        },
    };
    proof {
        assert(b@.skip((n - 16) as int).take(8) =~= b@.subrange(b@.len() - 16, b@.len() - 8));
    }
    if blob_len > (n - 16) as u64 {
        return None;
    }
    let clen = n - 16 - (blob_len as usize);
    let blob = copy_range(b, clen, n - 16);
    let mut acc: Vec<(String, Manifest)> = Vec::new();
    let fuel = (blob.len() as u64) + 1;
    let r = dec_entries_acc(&blob, 0, fuel, &mut acc);
    proof {
        assert(blob@.skip(0) =~= blob@);
        assert(entries_view(Seq::<(String, Manifest)>::empty()) =~= Seq::<(
            Seq<char>,
            ManifestModel,
        )>::empty());
    }
    match r {
        Some(np) => {
            if np == blob.len() {
                Some((clen, acc))
            } else {
                None
            }
        },
        None => None,
    }
}

} // verus!

use crate::assertion::{AssertionModel, assertion_valid, assertion_is_valid, Assertion};
use crate::manifest::{has_label, lemma_ingredient_view};
use crate::sign::{Signature, SigningAlg, tag_of, verify_bytes};

verus! {

// ------------------------------------------------------- validation statuses

/// Outcome codes of the read-path checks.
#[derive(Clone, Copy, PartialEq, Eq, Structural, Debug)]
pub enum StatusCode {
    Success,
    ContentTampered,
    SignatureInvalid,
    AssertionMalformed,
    CyclicChainDetected,
}

/// How serious a reported status is.
#[derive(Clone, Copy, PartialEq, Eq, Structural, Debug)]
pub enum Severity {
    Informational,
    Error,
}

/// Mathematical view of one validation status.
#[verifier::ext_equal]
pub ghost struct StatusModel {
    pub code: StatusCode,
    pub assertion_label: Option<Seq<char>>,
    pub severity: Severity,
}

/// One reported outcome of checking a manifest's content binding, signature,
/// or assertion well-formedness.
pub struct ValidationStatus {
    pub code: StatusCode,
    pub assertion_label: Option<String>,
    pub severity: Severity,
}

impl View for ValidationStatus {
    type V = StatusModel;

    open spec fn view(&self) -> StatusModel {
        StatusModel {
            code: self.code,
            assertion_label: crate::action::opt_str_view(self.assertion_label),
            severity: self.severity,
        }
    }
}

/// The view of exec status lists.
pub open spec fn statuses_view(v: Seq<ValidationStatus>) -> Seq<StatusModel> {
    v.map_values(|s: ValidationStatus| s@)
}

/// The view of exec key lists.
pub open spec fn keys_view(v: Seq<Vec<u8>>) -> Seq<Seq<u8>> {
    v.map_values(|k: Vec<u8>| k@)
}

pub open spec fn content_tampered_status() -> StatusModel {
    StatusModel { code: StatusCode::ContentTampered, assertion_label: None, severity: Severity::Error }
}

pub open spec fn signature_invalid_status() -> StatusModel {
    StatusModel { code: StatusCode::SignatureInvalid, assertion_label: None, severity: Severity::Error }
}

pub open spec fn malformed_status(label: Seq<char>) -> StatusModel {
    StatusModel {
        code: StatusCode::AssertionMalformed,
        assertion_label: Some(label),
        severity: Severity::Error,
    }
}

pub open spec fn cyclic_status() -> StatusModel {
    StatusModel {
        code: StatusCode::CyclicChainDetected,
        assertion_label: None,
        severity: Severity::Error,
    }
}

/// Whether some non-empty trusted key reproduces the manifest's signature
/// tag over its canonical bytes.
pub open spec fn sig_ok(m: ManifestModel, roots: Seq<Seq<u8>>) -> bool {
    m.signature matches Some(sig) && exists|i: int|
        0 <= i < roots.len() && (#[trigger] roots[i]).len() > 0 && sig.tag == tag_of(
            roots[i],
            enc_manifest(ManifestModel { signature: None, ..m }),
        )
}

/// One `AssertionMalformed` status for each assertion that breaks its
/// variant's required-field rules, in order.
pub open spec fn malformed_statuses(s: Seq<AssertionModel>) -> Seq<StatusModel>
    decreases s.len(),
{
    if s.len() == 0 {
        Seq::<StatusModel>::empty()
    } else {
        (if assertion_valid(s[0]) {
            Seq::<StatusModel>::empty()
        } else {
            seq![malformed_status(s[0].label)]
        }) + malformed_statuses(s.drop_first())
    }
}

/// The statuses one manifest earns: content binding, signature, assertions.
/// Nothing is reported for a manifest that passes every check.
pub open spec fn manifest_statuses(
    m: ManifestModel,
    actual: ContentDigest,
    roots: Seq<Seq<u8>>,
) -> Seq<StatusModel> {
    (if m.content_digest == Some(actual) {
        Seq::<StatusModel>::empty()
    } else {
        seq![content_tampered_status()]
    }) + (if sig_ok(m, roots) {
        Seq::<StatusModel>::empty()
    } else {
        seq![signature_invalid_status()]
    }) + malformed_statuses(m.assertions)
}

/// The statuses of a manifest and all its ancestors, walked through parent
/// links; a link onto an already-visited asset version reports a cycle and
/// stops.
pub open spec fn walk_statuses(
    m: ManifestModel,
    actual: ContentDigest,
    roots: Seq<Seq<u8>>,
    visited: Seq<Seq<char>>,
) -> Seq<StatusModel>
    decreases m,
{
    manifest_statuses(m, actual, roots) + (match m.parent {
        Some(i) => {
            if visited.contains(i.instance_id) {
                seq![cyclic_status()]
            } else {
                match i.parent_manifest {
                    Some(b) => walk_statuses(*b, actual, roots, visited.push(i.instance_id)),
                    None => Seq::<StatusModel>::empty(),
                }
            }
        },
        None => Seq::<StatusModel>::empty(),
    })
}

// ----------------------------------------------------------------- the chain

/// The manifests reachable from `m` through parent links, `m` first.
pub open spec fn chain_models(m: ManifestModel) -> Seq<ManifestModel>
    decreases m,
{
    seq![m] + (match m.parent {
        Some(i) => match i.parent_manifest {
            Some(b) => chain_models(*b),
            None => Seq::<ManifestModel>::empty(),
        },
        None => Seq::<ManifestModel>::empty(),
    })
}

/// Whether walking from `m` never revisits an instance identifier already in
/// `visited`.
pub open spec fn walk_ok(m: ManifestModel, visited: Seq<Seq<char>>) -> bool
    decreases m,
{
    match m.parent {
        Some(i) => !visited.contains(i.instance_id) && (match i.parent_manifest {
            Some(b) => walk_ok(*b, visited.push(i.instance_id)),
            None => true,
        }),
        None => true,
    }
}

/// A chain grows by exactly one manifest per parent link: a manifest with a
/// parent snapshot has the snapshot's whole chain behind its own entry, and
/// a manifest without one is a chain of one.
pub proof fn lemma_chain_length_step(m: ManifestModel)
    ensures
        (m.parent is Some && m.parent.unwrap().parent_manifest is Some) ==> chain_models(m).len()
            == 1 + chain_models(*m.parent.unwrap().parent_manifest.unwrap()).len(),
        (m.parent is None || m.parent.unwrap().parent_manifest is None) ==> chain_models(m).len()
            == 1,
{
}

} // verus!

verus! {

proof fn lemma_malformed_snoc(s: Seq<AssertionModel>, i: int)
    requires
        0 <= i < s.len(),
    ensures
        malformed_statuses(s.take(i + 1)) == malformed_statuses(s.take(i)) + (if assertion_valid(
            s[i],
        ) {
            Seq::<StatusModel>::empty()
        } else {
            seq![malformed_status(s[i].label)]
        }),
    decreases i,
{
    if i == 0 {
        assert(s.take(1) =~= seq![s[0]]);
        assert(seq![s[0]].drop_first() =~= Seq::<AssertionModel>::empty());
        assert(s.take(0) =~= Seq::<AssertionModel>::empty());
        assert(malformed_statuses(s.take(1)) =~= malformed_statuses(s.take(0)) + (if assertion_valid(
            s[0],
        ) {
            Seq::<StatusModel>::empty()
        } else {
            seq![malformed_status(s[0].label)]
        }));
    } else {
        lemma_malformed_snoc(s.drop_first(), i - 1);
        assert(s.take(i + 1).drop_first() =~= s.drop_first().take(i));
        assert(s.take(i).drop_first() =~= s.drop_first().take(i - 1));
        assert(s.take(i + 1)[0] == s[0]);
        assert(s.take(i)[0] == s[0]);
        assert(s.drop_first()[i - 1] == s[i]);
        let head: Seq<StatusModel> = if assertion_valid(s[0]) {
            Seq::<StatusModel>::empty()
        } else {
            seq![malformed_status(s[0].label)]
        };
        let tail: Seq<StatusModel> = if assertion_valid(s[i]) {
            Seq::<StatusModel>::empty()
        } else {
            seq![malformed_status(s[i].label)]
        };
        assert(head + (malformed_statuses(s.drop_first().take(i - 1)) + tail) =~= (head
            + malformed_statuses(s.drop_first().take(i - 1))) + tail);
    }
}

/// Appends the statuses one manifest earns against the given content digest
/// and trusted keys.
#[verifier::loop_isolation(false)]
pub(crate) fn validate_manifest(
    m: &Manifest,
    actual: ContentDigest,
    roots: &Vec<Vec<u8>>,
    out: &mut Vec<ValidationStatus>,
)
    ensures
        statuses_view(final(out)@) == statuses_view(old(out)@) + manifest_statuses(
            m@,
            actual,
            keys_view(roots@),
        ),
{
    let ghost ks = keys_view(roots@);
    let digest_ok = match m.content_digest() {
        Some(d) => d == actual,
        None => false,
    };
    if !digest_ok {
        out.push(
            ValidationStatus {
                code: StatusCode::ContentTampered,
                assertion_label: None,
                severity: Severity::Error,
            },
        );
    }
    let canon = m.canonical_bytes();
    let signature_ok = match m.signature() {
        Some(sig) => {
            let ok = verify_bytes(&canon, sig, roots);
            proof {
                assert forall|i: int| 0 <= i < roots@.len() implies (#[trigger] roots@[i])@
                    == ks[i] by {}
                assert forall|i: int| 0 <= i < ks.len() implies (#[trigger] ks[i]) == roots@[i]@ by {}
            }
            ok
        },
        None => false,
    };
    if !signature_ok {
        out.push(
            ValidationStatus {
                code: StatusCode::SignatureInvalid,
                assertion_label: None,
                severity: Severity::Error,
            },
        );
    }
    let ghost base = statuses_view(out@);
    let ghost ams = m@.assertions;
    let assertions = m.assertions();
    let mut i: usize = 0;
    proof {
        assert(ams.take(0) =~= Seq::<AssertionModel>::empty());
        assert(statuses_view(out@) =~= base + malformed_statuses(ams.take(0)));
    }
    while i < assertions.len()
        invariant
            i <= assertions.len(),
            ams.len() == assertions@.len(),
            ams == assertions@.map_values(|a: Assertion| a@),
            statuses_view(out@) == base + malformed_statuses(ams.take(i as int)),
        decreases assertions.len() - i,
    {
        proof {
            assert(ams[i as int] == assertions@[i as int]@);
            lemma_malformed_snoc(ams, i as int);
        }
        if !assertion_is_valid(&assertions[i]) {
            let label = assertions[i].label.clone();
            out.push(
                ValidationStatus {
                    code: StatusCode::AssertionMalformed,
                    assertion_label: Some(label),
                    severity: Severity::Error,
                },
            );
            proof {
                assert(statuses_view(out@) =~= base + malformed_statuses(ams.take(i as int))
                    + seq![malformed_status(ams[i as int].label)]);
                assert(base + malformed_statuses(ams.take(i as int)) + seq![malformed_status(
                    ams[i as int].label,
                )] =~= base + malformed_statuses(ams.take(i as int + 1)));
            }
        } else {
            proof {
                assert(malformed_statuses(ams.take(i as int + 1)) =~= malformed_statuses(
                    ams.take(i as int),
                ));
            }
        }
        i = i + 1;
    }
    proof {
        assert(ams.take(ams.len() as int) =~= ams);
        assert(statuses_view(out@) =~= statuses_view(old(out)@) + manifest_statuses(
            m@,
            actual,
            ks,
        ));
    }
}

/// Whether the list of seen identifiers holds this one.
#[verifier::loop_isolation(false)]
pub(crate) fn contains_id(visited: &Vec<String>, id: &String) -> (r: bool)
    ensures
        r == visited@.map_values(|s: String| s@).contains(id@),
{
    let ghost vs = visited@.map_values(|s: String| s@);
    let mut i: usize = 0;
    while i < visited.len()
        invariant
            i <= visited.len(),
            vs.len() == visited@.len(),
            forall|j: int| 0 <= j < i ==> (#[trigger] vs[j]) != id@,
        decreases visited.len() - i,
    {
        proof {
            assert(vs[i as int] == visited@[i as int]@);
        }
        if visited[i].eq(id) {
            proof {
                assert(vs.contains(id@));
            }
            return true;
        }
        i = i + 1;
    }
    proof {
        if vs.contains(id@) {
            let j = choose|j: int| 0 <= j < vs.len() && vs[j] == id@;
            assert(false);
        }
    }
    false
}

} // verus!

use crate::manifest::{validate_walk, walk_chain};
use crate::digest::lemma_digest_detects_single_flip;

verus! {

/// Mathematical view of a manifest store.
#[verifier::ext_equal]
pub ghost struct StoreModel {
    pub entries: Seq<(Seq<char>, ManifestModel)>,
    pub active_label: Seq<char>,
    pub statuses: Seq<StatusModel>,
}

/// The manifests parsed out of one asset, the label of the most recently
/// embedded one, and everything validation reported. A store is created only
/// by parsing an asset and never changes afterwards.
pub struct ManifestStore {
    manifests: Vec<(String, Manifest)>,
    active_label: String,
    validation_statuses: Vec<ValidationStatus>,
}

impl View for ManifestStore {
    type V = StoreModel;

    closed spec fn view(&self) -> StoreModel {
        StoreModel {
            entries: entries_view(self.manifests@),
            active_label: self.active_label@,
            statuses: statuses_view(self.validation_statuses@),
        }
    }
}

impl ManifestStore {
    /// Parses the manifests out of an asset and validates the active one and
    /// every ancestor against the asset's content and the trusted keys. An
    /// asset without manifests fails with `NoManifestFound`; every validation
    /// finding is reported in the store's statuses, never as an error.
    pub fn from_asset(bytes: &Vec<u8>, trust_roots: &Vec<Vec<u8>>) -> (r: Result<
        ManifestStore,
        Error,
    >)
        ensures
            r is Ok <==> (parse_store(bytes@) matches Some(es) && es.len() > 0),
            r matches Err(e) ==> e is NoManifestFound,
            r matches Ok(st) ==> (parse_store(bytes@) matches Some(es) && ({
                &&& st@.entries == es
                &&& st@.active_label == es.last().0
                &&& st@.statuses == walk_statuses(
                    es.last().1,
                    digest_of(content_of(bytes@)),
                    keys_view(trust_roots@),
                    Seq::<Seq<char>>::empty(),
                )
            })),
    {
        let (clen, es) = match extract_store(bytes) {
            Some(x) => x,
            None => {
                return Err(Error::NoManifestFound);
            },
        };
        if es.len() == 0 {
            return Err(Error::NoManifestFound);
        }
        let content = copy_range(bytes, 0, clen);
        proof {
            assert(content@ =~= content_of(bytes@));
        }
        let d = compute_digest(&content);
        let active = &es[es.len() - 1].1;
        proof {
            let pes = parse_store(bytes@).unwrap();
            assert(entries_view(es@)[es@.len() - 1] == (es@[es@.len() - 1].0@, es@[es@.len()
                - 1].1@));
            assert(active@ == pes.last().1);
        }
        let mut statuses: Vec<ValidationStatus> = Vec::new();
        let visited: Vec<String> = Vec::new();
        proof {
            assert(visited@.map_values(|s: String| s@) =~= Seq::<Seq<char>>::empty());
            assert(statuses_view(Seq::<ValidationStatus>::empty())
                =~= Seq::<StatusModel>::empty());
        }
        validate_walk(active, d, trust_roots, visited, &mut statuses);
        let active_label = es[es.len() - 1].0.clone();
        proof {
            assert(statuses_view(statuses@) =~= Seq::<StatusModel>::empty() + statuses_view(
                statuses@,
            ));
        }
        Ok(ManifestStore { manifests: es, active_label, validation_statuses: statuses })
    }

    /// The manifests, in embedding order, each under its label.
    pub fn manifests(&self) -> (r: &Vec<(String, Manifest)>)
        ensures
            entries_view(r@) == self@.entries,
    {
        &self.manifests
    }

    /// The label of the most recently embedded manifest.
    pub fn active_label(&self) -> (r: &String)
        ensures
            r@ == self@.active_label,
    {
        &self.active_label
    }

    /// Everything validation reported, in the order it was found.
    pub fn validation_statuses(&self) -> (r: &Vec<ValidationStatus>)
        ensures
            statuses_view(r@) == self@.statuses,
    {
        &self.validation_statuses
    }

    /// The most recently embedded manifest; `NoActiveManifest` only on a
    /// store with no manifest at all.
    pub fn get_active(&self) -> (r: Result<&Manifest, Error>)
        ensures
            r is Ok <==> self@.entries.len() > 0,
            r matches Ok(m) ==> m@ == self@.entries.last().1,
            r matches Err(e) ==> e is NoActiveManifest,
    {
        if self.manifests.len() == 0 {
            return Err(Error::NoActiveManifest);
        }
        let m = &self.manifests[self.manifests.len() - 1].1;
        proof {
            assert(entries_view(self.manifests@)[self.manifests@.len() - 1] == (
            self.manifests@[self.manifests@.len() - 1].0@,
            self.manifests@[self.manifests@.len() - 1].1@,
            ));
        }
        Ok(m)
    }

    /// Whether validation reported nothing of `Error` severity.
    #[verifier::loop_isolation(false)]
    pub fn is_valid(&self) -> (r: bool)
        ensures
            r == (forall|i: int|
                0 <= i < self@.statuses.len() ==> (#[trigger] self@.statuses[i]).severity
                    != Severity::Error),
    {
        let ghost sv = statuses_view(self.validation_statuses@);
        let mut i: usize = 0;
        while i < self.validation_statuses.len()
            invariant
                i <= self.validation_statuses.len(),
                forall|j: int| 0 <= j < i ==> (#[trigger] sv[j]).severity != Severity::Error,
            decreases self.validation_statuses.len() - i,
        {
            proof {
                assert(sv[i as int] == self.validation_statuses@[i as int]@);
            }
            match self.validation_statuses[i].severity {
                Severity::Error => {
                    return false;
                },
                Severity::Informational => {},
            }
            i = i + 1;
        }
        true
    }

    /// The chain of custody: the active manifest first, then each ancestor
    /// through parent links, oldest last. Fails with `CyclicChain` when a
    /// link would revisit an already-seen asset version.
    pub fn chain(&self) -> (r: Result<Vec<Manifest>, Error>)
        ensures
            self@.entries.len() == 0 ==> r matches Err(Error::NoActiveManifest),
            self@.entries.len() > 0 ==> ({
                let active = self@.entries.last().1;
                &&& r is Ok <==> walk_ok(active, Seq::<Seq<char>>::empty())
                &&& r matches Ok(v) ==> v@.map_values(|x: Manifest| x@) == chain_models(active)
                &&& !(r is Ok) ==> r matches Err(Error::CyclicChain)
            }),
    {
        if self.manifests.len() == 0 {
            return Err(Error::NoActiveManifest);
        }
        let active = &self.manifests[self.manifests.len() - 1].1;
        proof {
            assert(entries_view(self.manifests@)[self.manifests@.len() - 1] == (
            self.manifests@[self.manifests@.len() - 1].0@,
            self.manifests@[self.manifests@.len() - 1].1@,
            ));
        }
        let visited: Vec<String> = Vec::new();
        let mut acc: Vec<Manifest> = Vec::new();
        proof {
            assert(visited@.map_values(|s: String| s@) =~= Seq::<Seq<char>>::empty());
        }
        match walk_chain(active, visited, &mut acc) {
            Ok(()) => {
                proof {
                    assert(Seq::<Manifest>::empty().map_values(|x: Manifest| x@)
                        =~= Seq::<ManifestModel>::empty());
                    assert(acc@.map_values(|x: Manifest| x@) =~= chain_models(active@));
                }
                Ok(acc)
            },
            Err(e) => Err(e),
        }
    }
}

/// The chain of custody of a parsed store, active manifest first.
pub fn chain_of(store: &ManifestStore) -> (r: Result<Vec<Manifest>, Error>)
    ensures
        store@.entries.len() == 0 ==> r matches Err(Error::NoActiveManifest),
        store@.entries.len() > 0 ==> ({
            let active = store@.entries.last().1;
            &&& r is Ok <==> walk_ok(active, Seq::<Seq<char>>::empty())
            &&& r matches Ok(v) ==> v@.map_values(|x: Manifest| x@) == chain_models(active)
            &&& !(r is Ok) ==> r matches Err(Error::CyclicChain)
        }),
{
    store.chain()
}

} // verus!

verus! {

/// Builds the label for the next embedded manifest.
fn make_label(n: u64) -> (r: String)
    ensures
        r@ == label_of_index(n as nat),
{
    let mut s = String::from_str("urn:manifest:");
    let d = u64_to_decimal(n);
    s.append(d.as_str());
    s
}

/// Signs a manifest over the asset's content digest and embeds it: the
/// output carries the content unchanged, every manifest the source already
/// carried, and the newly signed manifest as the new active entry. A signed
/// manifest cannot be signed again; empty key material cannot sign. A failed
/// call produces nothing.
#[verifier::spinoff_prover]
#[verifier::rlimit(100)]
pub fn sign_and_embed(manifest: Manifest, source: &Vec<u8>, alg: SigningAlg, key: &Vec<u8>) -> (r:
    Result<Vec<u8>, Error>)
    ensures
        r is Ok <==> (manifest@.signature is None && key@.len() > 0),
        manifest@.signature is Some ==> r matches Err(Error::ImmutableManifest),
        (manifest@.signature is None && key@.len() == 0) ==> r matches Err(Error::Signing),
        r matches Ok(out) ==> ({
            let es0 = match parse_store(source@) {
                Some(e) => e,
                None => Seq::<(Seq<char>, ManifestModel)>::empty(),
            };
            let content = content_of(source@);
            let bound = ManifestModel {
                content_digest: Some(digest_of(content)),
                ..manifest@
            };
            let signed = ManifestModel {
                signature: Some(Signature { alg, tag: tag_of(key@, enc_manifest(bound)) }),
                ..bound
            };
            &&& content_of(out@) == content
            &&& parse_store(out@) == Some(es0.push((label_of_index(es0.len()), signed)))
            &&& signed.assertions == manifest@.assertions
        }),
{
    let ghost es0_model = match parse_store(source@) {
        Some(e) => e,
        None => Seq::<(Seq<char>, ManifestModel)>::empty(),
    };
    let (clen, mut es) = match extract_store(source) {
        Some(x) => x,
        None => (source.len(), Vec::new()),
    };
    proof {
        assert(entries_view(es@) == es0_model);
    }
    let content = copy_range(source, 0, clen);
    proof {
        assert(content@ =~= content_of(source@));
    }
    let d = compute_digest(&content);
    let mut m = manifest;
    match m.sign(alg, key, d) {
        Ok(()) => {},
        Err(e) => {
            return Err(e);
        },
    }
    let label = make_label(es.len() as u64);
    es.push((label, m));
    let mut blob: Vec<u8> = Vec::new();
    enc_entries_from(&es, 0, &mut blob);
    proof {
        assert(entries_view(es@).skip(0) =~= entries_view(es@));
        assert(entries_view(es@) =~= es0_model.push(
            (label_of_index(es0_model.len()), entries_view(es@).last().1),
        ));
    }
    let mut out = content;
    push_all(&mut out, &blob);
    enc_u64_into(blob.len() as u64, &mut out);
    out.push(0x43u8);
    out.push(0x32u8);
    out.push(0x50u8);
    out.push(0x41u8);
    out.push(0x4du8);
    out.push(0x41u8);
    out.push(0x4eu8);
    out.push(0x46u8);
    proof {
        lemma_auto_spec_u64_to_from_le_bytes();
        let c = content_of(source@);
        let bb = blob@;
        let lb = crate::codec::enc_u64(bb.len() as u64);
        assert(out@ =~= c + bb + lb + magic());
        let whole = out@;
        assert(whole.len() == c.len() + bb.len() + 16);
        assert(whole.subrange(whole.len() - 8, whole.len() as int) =~= magic());
        assert(whole.subrange(whole.len() - 16, whole.len() - 8) =~= lb);
        assert(spec_u64_from_le_bytes(lb) == bb.len() as u64);
        assert(whole.take(whole.len() - 16 - bb.len()) =~= c);
        assert(whole.subrange(whole.len() - 16 - bb.len(), whole.len() - 16) =~= bb);
        assert(split_asset(whole) == Some((c, bb)));
        lemma_dec_enc_entries(entries_view(es@), Seq::<u8>::empty(), (bb.len() + 1) as nat);
        assert(enc_entries(entries_view(es@)) + Seq::<u8>::empty() =~= bb);
        assert(parse_store(whole) == Some(entries_view(es@)));
    }
    Ok(out)
}

/// Snapshots an asset as an ingredient: an instance identifier derived from
/// a digest of all its bytes, and its active manifest when it carries one.
pub fn ingredient_from_asset(bytes: &Vec<u8>) -> (r: IngredientReference)
    ensures
        r@.instance_id == instance_id_of(bytes@),
        (parse_store(bytes@) matches Some(es) && es.len() > 0) ==> r@.parent_manifest == Some(
            Box::new(parse_store(bytes@).unwrap().last().1),
        ),
        !(parse_store(bytes@) matches Some(es) && es.len() > 0) ==> r@.parent_manifest is None,
{
    let d = compute_digest(bytes);
    let mut id = String::from_str("urn:asset:");
    let s1 = u64_to_decimal(d.sum);
    id.append(s1.as_str());
    id.append(":");
    let s2 = u64_to_decimal(d.len);
    id.append(s2.as_str());
    proof {
        reveal_strlit(":");
        assert(":"@ =~= seq![':']);
        assert(id@ =~= instance_id_of(bytes@));
    }
    let parent: Option<Manifest> = match extract_store(bytes) {
        Some((_, mut es)) => {
            if es.len() == 0 {
                None
            } else {
                let ghost pes = parse_store(bytes@).unwrap();
                proof {
                    assert(entries_view(es@)[es@.len() - 1] == (es@[es@.len() - 1].0@, es@[es@.len()
                        - 1].1@));
                }
                match es.pop() {
                    Some((_, m)) => Some(m),
                    None => None,
                }
            }
        },
        None => None,
    };
    IngredientReference::new(id, parent)
}

/// Flipping any single content byte of an asset that carries a manifest
/// store bound to its content leaves the store parseable and unchanged, and
/// makes validation report `ContentTampered` first.
pub proof fn lemma_tamper_detected(orig: Seq<u8>, tampered: Seq<u8>, roots: Seq<Seq<u8>>, i: int)
    requires
        parse_store(orig) is Some,
        parse_store(orig).unwrap().len() > 0,
        parse_store(orig).unwrap().last().1.content_digest == Some(digest_of(content_of(orig))),
        tampered.len() == orig.len(),
        0 <= i < content_of(orig).len(),
        tampered[i] != orig[i],
        forall|j: int| 0 <= j < orig.len() && j != i ==> tampered[j] == orig[j],
    ensures
        parse_store(tampered) == parse_store(orig),
        ({
            let ws = walk_statuses(
                parse_store(tampered).unwrap().last().1,
                digest_of(content_of(tampered)),
                roots,
                Seq::<Seq<char>>::empty(),
            );
            ws.len() > 0 && ws[0] == content_tampered_status()
        }),
{
    let sp = split_asset(orig).unwrap();
    let c1 = sp.0;
    let bb = sp.1;
    let bl = c1.len();
    assert(split_asset(orig) is Some);
    assert(tampered.subrange(tampered.len() - 8, tampered.len() as int) =~= orig.subrange(
        orig.len() - 8,
        orig.len() as int,
    ));
    assert(tampered.subrange(tampered.len() - 16, tampered.len() - 8) =~= orig.subrange(
        orig.len() - 16,
        orig.len() - 8,
    ));
    let blob_len = spec_u64_from_le_bytes(orig.subrange(orig.len() - 16, orig.len() - 8)) as int;
    assert(tampered.take(tampered.len() - 16 - blob_len) =~= ({
        let c2 = tampered.take(orig.len() - 16 - blob_len);
        c2
    }));
    assert(tampered.subrange(tampered.len() - 16 - blob_len, tampered.len() - 16) =~= orig.subrange(
        orig.len() - 16 - blob_len,
        orig.len() - 16,
    ));
    let c2 = tampered.take(orig.len() - 16 - blob_len);
    assert(split_asset(tampered) == Some((c2, bb)));
    assert(parse_store(tampered) == parse_store(orig));
    assert(c2.len() == c1.len());
    assert(c2[i] != c1[i]);
    assert(forall|j: int| 0 <= j < c1.len() && j != i ==> c2[j] == c1[j]);
    lemma_digest_detects_single_flip(c1, c2, i);
    let active = parse_store(orig).unwrap().last().1;
    assert(active.content_digest != Some(digest_of(c2)));
    let ms = manifest_statuses(active, digest_of(c2), roots);
    assert(ms[0] == content_tampered_status());
    let ws = walk_statuses(active, digest_of(c2), roots, Seq::<Seq<char>>::empty());
    assert(ws[0] == content_tampered_status());
}

} // verus!

verus! {

/// Whether all labels in the sequence are pairwise distinct.
pub open spec fn labels_unique(s: Seq<AssertionModel>) -> bool {
    forall|i: int, j: int| 0 <= i < j < s.len() ==> s[i].label != s[j].label
}

/// Assembles an unsigned manifest from its parts. Fails with
/// `DuplicateLabel` exactly when two assertions share a label.
#[verifier::loop_isolation(false)]
pub fn create_manifest(
    claim_generator: String,
    title: String,
    format: String,
    assertions: Vec<Assertion>,
) -> (r: Result<Manifest, Error>)
    ensures
        ({
            let avs = assertions@.map_values(|a: Assertion| a@);
            &&& r is Ok <==> labels_unique(avs)
            &&& r matches Ok(m) ==> m@ == (ManifestModel {
                claim_generator: claim_generator@,
                title: Some(title@),
                format: format@,
                assertions: avs,
                parent: None,
                signature: None,
                content_digest: None,
            })
            &&& r matches Err(e) ==> e is DuplicateLabel
        }),
{
    let ghost avs = assertions@.map_values(|a: Assertion| a@);
    let mut m = Manifest::new(claim_generator);
    match m.set_title(title) {
        Ok(()) => {},
        Err(e) => {
            return Err(e);
        },
    }
    match m.set_format(format) {
        Ok(()) => {},
        Err(e) => {
            return Err(e);
        },
    }
    let mut rest = assertions;
    let mut i: usize = 0;
    let n = rest.len();
    proof {
        assert(avs.take(0) =~= Seq::<AssertionModel>::empty());
    }
    while i < n
        invariant
            i <= n,
            n == avs.len(),
            rest@.len() == n - i,
            avs.len() == n,
            forall|j: int| 0 <= j < rest@.len() ==> (#[trigger] rest@[j]@) == avs[i + j],
            m@ == (ManifestModel {
                claim_generator: claim_generator@,
                title: Some(title@),
                format: format@,
                assertions: avs.take(i as int),
                parent: None,
                signature: None,
                content_digest: None,
            }),
            labels_unique(avs.take(i as int)),
        decreases n - i,
    {
        let a = rest.remove(0);
        proof {
            assert(a@ == avs[i as int]);
        }
        match m.add_assertion(a) {
            Ok(()) => {},
            Err(e) => {
                proof {
                    let la = avs[i as int].label;
                    assert(has_label(avs.take(i as int), la));
                    let k = choose|k: int|
                        0 <= k < i as int && avs.take(i as int)[k].label == la;
                    assert(avs[k].label == avs[i as int].label);
                    assert(!labels_unique(avs));
                }
                return Err(e);
            },
        }
        proof {
            assert(avs.take(i as int).push(avs[i as int]) =~= avs.take(i as int + 1));
            assert forall|p: int, q: int|
                0 <= p < q < i as int + 1 implies (#[trigger] avs.take(i as int + 1)[p]).label != (
                #[trigger] avs.take(i as int + 1)[q]).label by {
                if q < i as int {
                    assert(avs.take(i as int)[p].label != avs.take(i as int)[q].label);
                } else {
                    assert(!has_label(avs.take(i as int), avs[i as int].label));
                    assert(avs.take(i as int)[p].label != avs[i as int].label);
                }
            }
        }
        i = i + 1;
    }
    proof {
        assert(avs.take(n as int) =~= avs);
    }
    Ok(m)
}

} // verus!

verus! {

/// Embeds an already-signed manifest into an asset. Fails with
/// `DigestMismatch` exactly when the manifest's stored content digest is not
/// the digest of the asset's content at embed time; nothing is produced on
/// failure. On success the output carries the content unchanged, the
/// manifests the source already carried, and this manifest as the new
/// active entry.
#[verifier::spinoff_prover]
#[verifier::rlimit(100)]
pub fn embed(manifest: Manifest, source: &Vec<u8>) -> (r: Result<Vec<u8>, Error>)
    ensures
        r is Ok <==> manifest@.content_digest == Some(digest_of(content_of(source@))),
        r matches Err(e) ==> (e matches Error::DigestMismatch { expected, actual } && expected
            == manifest@.content_digest && actual == digest_of(content_of(source@))),
        r matches Ok(out) ==> ({
            let es0 = match parse_store(source@) {
                Some(e) => e,
                None => Seq::<(Seq<char>, ManifestModel)>::empty(),
            };
            &&& content_of(out@) == content_of(source@)
            &&& parse_store(out@) == Some(es0.push((label_of_index(es0.len()), manifest@)))
        }),
{
    let ghost es0_model = match parse_store(source@) {
        Some(e) => e,
        None => Seq::<(Seq<char>, ManifestModel)>::empty(),
    };
    let (clen, mut es) = match extract_store(source) {
        Some(x) => x,
        None => (source.len(), Vec::new()),
    };
    proof {
        assert(entries_view(es@) == es0_model);
    }
    let content = copy_range(source, 0, clen);
    proof {
        assert(content@ =~= content_of(source@));
    }
    let actual = compute_digest(&content);
    let stored_ok = match manifest.content_digest() {
        Some(d) => d == actual,
        None => false,
    };
    if !stored_ok {
        return Err(Error::DigestMismatch { expected: manifest.content_digest(), actual });
    }
    let label = make_label(es.len() as u64);
    es.push((label, manifest));
    let mut blob: Vec<u8> = Vec::new();
    enc_entries_from(&es, 0, &mut blob);
    proof {
        assert(entries_view(es@).skip(0) =~= entries_view(es@));
        assert(entries_view(es@) =~= es0_model.push(
            (label_of_index(es0_model.len()), entries_view(es@).last().1),
        ));
    }
    let mut out = content;
    push_all(&mut out, &blob);
    enc_u64_into(blob.len() as u64, &mut out);
    out.push(0x43u8);
    out.push(0x32u8);
    out.push(0x50u8);
    out.push(0x41u8);
    out.push(0x4du8);
    out.push(0x41u8);
    out.push(0x4eu8);
    out.push(0x46u8);
    proof {
        lemma_auto_spec_u64_to_from_le_bytes();
        let c = content_of(source@);
        let bb = blob@;
        let lb = crate::codec::enc_u64(bb.len() as u64);
        assert(out@ =~= c + bb + lb + magic());
        let whole = out@;
        assert(whole.len() == c.len() + bb.len() + 16);
        assert(whole.subrange(whole.len() - 8, whole.len() as int) =~= magic());
        assert(whole.subrange(whole.len() - 16, whole.len() - 8) =~= lb);
        assert(spec_u64_from_le_bytes(lb) == bb.len() as u64);
        assert(whole.take(whole.len() - 16 - bb.len()) =~= c);
        assert(whole.subrange(whole.len() - 16 - bb.len(), whole.len() - 16) =~= bb);
        assert(split_asset(whole) == Some((c, bb)));
        lemma_dec_enc_entries(entries_view(es@), Seq::<u8>::empty(), (bb.len() + 1) as nat);
        assert(enc_entries(entries_view(es@)) + Seq::<u8>::empty() =~= bb);
        assert(parse_store(whole) == Some(entries_view(es@)));
    }
    Ok(out)
}

} // verus!
