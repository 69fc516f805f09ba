//! The manifest: the unit of provenance. A manifest is assembled from
//! assertions, optionally linked to a prior asset version through an
//! ingredient snapshot, signed once, and embedded. Once signed it is frozen:
//! every mutating call fails with `ImmutableManifest`.

use vstd::prelude::*;
use crate::assertion::{Assertion, AssertionModel, AssertionData};
use crate::action::pairs_view;
use crate::digest::ContentDigest;
use crate::error::Error;
use crate::sign::{Signature, SigningAlg, tag_of, sign_bytes};
use crate::codec::{
    enc_manifest, enc_ingredient, dec_manifest, dec_ingredient, enc_str_into, enc_opt_str_into,
    enc_assertions_into, enc_opt_sig_into, enc_opt_digest_into, dec_str_at, dec_opt_str_at,
    dec_assertions_at, dec_opt_sig_at, dec_opt_digest_at, lemma_skip_skip,
};

verus! {

/// Mathematical view of a manifest.
#[verifier::ext_equal]
pub ghost struct ManifestModel {
    pub claim_generator: Seq<char>,
    pub title: Option<Seq<char>>,
    pub format: Seq<char>,
    pub assertions: Seq<AssertionModel>,
    pub parent: Option<IngredientModel>,
    pub signature: Option<Signature>,
    pub content_digest: Option<ContentDigest>,
}

/// Mathematical view of an ingredient snapshot.
#[verifier::ext_equal]
pub ghost struct IngredientModel {
    pub instance_id: Seq<char>,
    pub parent_manifest: Option<Box<ManifestModel>>,
}

/// An immutable snapshot reference to a prior asset version: the version's
/// opaque instance identifier and, when that version carried provenance, an
/// owned copy of its active manifest.
pub struct IngredientReference {
    pub instance_id: String,
    pub parent_manifest: Option<Box<Manifest>>,
}

/// A provenance record for one version of an asset.
pub struct Manifest {
    claim_generator: String,
    title: Option<String>,
    format: String,
    assertions: Vec<Assertion>,
    parent: Option<IngredientReference>,
    signature: Option<Signature>,
    content_digest: Option<ContentDigest>,
}

/// The model of a manifest, from its parts.
pub closed spec fn manifest_model_of(m: Manifest) -> ManifestModel
    decreases m,
{
    ManifestModel {
        claim_generator: m.claim_generator@,
        title: match m.title {
            Some(t) => Some(t@),
            None => None,
        },
        format: m.format@,
        assertions: m.assertions@.map_values(|a: Assertion| a@),
        parent: match m.parent {
            Some(i) => Some(ingredient_model_of(i)),
            None => None,
        },
        signature: m.signature,
        content_digest: m.content_digest,
    }
}

/// The model of an ingredient snapshot, from its parts.
pub closed spec fn ingredient_model_of(i: IngredientReference) -> IngredientModel
    decreases i,
{
    IngredientModel {
        instance_id: i.instance_id@,
        parent_manifest: match i.parent_manifest {
            Some(b) => Some(Box::new(manifest_model_of(*b))),
            None => None,
        },
    }
}

impl View for Manifest {
    type V = ManifestModel;

    open spec fn view(&self) -> ManifestModel {
        manifest_model_of(*self)
    }
}

impl View for IngredientReference {
    type V = IngredientModel;

    open spec fn view(&self) -> IngredientModel {
        ingredient_model_of(*self)
    }
}

/// Whether some assertion in the sequence carries the given label.
pub open spec fn has_label(s: Seq<AssertionModel>, label: Seq<char>) -> bool {
    exists|i: int| 0 <= i < s.len() && s[i].label == label
}

impl IngredientReference {
    /// Snapshots a prior asset version: its instance identifier and, if it
    /// carried provenance, its active manifest. The snapshot is owned: later
    /// changes to the source never reach it.
    pub fn new(instance_id: String, parent_manifest: Option<Manifest>) -> (r: IngredientReference)
        ensures
            r@.instance_id == instance_id@,
            parent_manifest matches Some(m) ==> r@.parent_manifest == Some(Box::new(m@)),
            parent_manifest is None ==> r@.parent_manifest is None,
    {
        match parent_manifest {
            Some(m) => IngredientReference { instance_id, parent_manifest: Some(Box::new(m)) },
            None => IngredientReference { instance_id, parent_manifest: None },
        }
    }
}

impl Manifest {
    /// An empty, unsigned, unembedded manifest for the given claim generator.
    pub fn new(claim_generator: String) -> (m: Manifest)
        ensures
            m@ == (ManifestModel {
                claim_generator: claim_generator@,
                title: None,
                format: Seq::<char>::empty(),
                assertions: Seq::<AssertionModel>::empty(),
                parent: None,
                signature: None,
                content_digest: None,
            }),
    {
        let m = Manifest {
            claim_generator,
            title: None,
            format: String::new(),
            assertions: Vec::new(),
            parent: None,
            signature: None,
            content_digest: None,
        };
        proof {
            assert(m.assertions@.map_values(|a: Assertion| a@) =~= Seq::<AssertionModel>::empty());
        }
        m
    }

    /// Whether this manifest has been signed and is therefore frozen.
    pub fn is_signed(&self) -> (r: bool)
        ensures
            r == (self@.signature is Some),
    {
        self.signature.is_some()
    }

    /// Sets the title. Fails on a signed manifest, which changes nothing.
    pub fn set_title(&mut self, title: String) -> (r: Result<(), Error>)
        ensures
            r is Ok <==> old(self)@.signature is None,
            r is Ok ==> final(self)@ == (ManifestModel { title: Some(title@), ..old(self)@ }),
            r is Err ==> final(self)@ == old(self)@ && r matches Err(Error::ImmutableManifest),
    {
        if self.signature.is_some() {
            return Err(Error::ImmutableManifest);
        }
        self.title = Some(title);
        Ok(())
    }

    /// Sets the MIME format. Fails on a signed manifest, which changes
    /// nothing.
    pub fn set_format(&mut self, format: String) -> (r: Result<(), Error>)
        ensures
            r is Ok <==> old(self)@.signature is None,
            r is Ok ==> final(self)@ == (ManifestModel { format: format@, ..old(self)@ }),
            r is Err ==> final(self)@ == old(self)@ && r matches Err(Error::ImmutableManifest),
    {
        if self.signature.is_some() {
            return Err(Error::ImmutableManifest);
        }
        self.format = format;
        Ok(())
    }

    /// Appends an assertion. Fails with `ImmutableManifest` on a signed
    /// manifest and with `DuplicateLabel` when the label is already present;
    /// a failed call leaves the manifest unchanged.
    #[verifier::loop_isolation(false)]
    pub fn add_assertion(&mut self, a: Assertion) -> (r: Result<(), Error>)
        ensures
            r is Ok <==> (old(self)@.signature is None && !has_label(
                old(self)@.assertions,
                a@.label,
            )),
            r is Ok ==> final(self)@ == (ManifestModel {
                assertions: old(self)@.assertions.push(a@),
                ..old(self)@
            }),
            r is Err ==> final(self)@ == old(self)@,
            old(self)@.signature is Some ==> r matches Err(Error::ImmutableManifest),
            (old(self)@.signature is None && has_label(old(self)@.assertions, a@.label)) ==> (
            r matches Err(Error::DuplicateLabel { label }) && label@ == a@.label),
    {
        if self.signature.is_some() {
            return Err(Error::ImmutableManifest);
        }
        let ghost ms = self.assertions@.map_values(|x: Assertion| x@);
        let mut i: usize = 0;
        while i < self.assertions.len()
            invariant
                i <= self.assertions.len(),
                forall|j: int| 0 <= j < i ==> (#[trigger] ms[j]).label != a@.label,
            decreases self.assertions.len() - i,
        {
            proof {
                assert(ms[i as int] == self.assertions@[i as int]@);
            }
            if self.assertions[i].label == a.label {
                return Err(Error::DuplicateLabel { label: a.label });
            }
            i = i + 1;
        }
        self.assertions.push(a);
        proof {
            assert(self.assertions@.map_values(|x: Assertion| x@) =~= ms.push(a@));
        }
        Ok(())
    }

    /// Appends application-specific data as a `LabeledCustomData` assertion
    /// under the given label, enforcing the same label-uniqueness and
    /// immutability rules.
    pub fn add_labeled_assertion(&mut self, label: String, fields: Vec<(String, String)>) -> (r:
        Result<(), Error>)
        ensures
            r is Ok <==> (label@.len() > 0 && old(self)@.signature is None && !has_label(
                old(self)@.assertions,
                label@,
            )),
            r is Ok ==> final(self)@ == (ManifestModel {
                assertions: old(self)@.assertions.push(
                    AssertionModel {
                        label: label@,
                        data: crate::assertion::AssertionDataModel::LabeledCustomData {
                            fields: pairs_view(fields@),
                        },
                    },
                ),
                ..old(self)@
            }),
            r is Err ==> final(self)@ == old(self)@,
            label@.len() == 0 ==> (r matches Err(Error::InvalidAssertion { field }) && field@
                == "label"@),
            (label@.len() > 0 && old(self)@.signature is Some) ==> r matches Err(
                Error::ImmutableManifest,
            ),
            (label@.len() > 0 && old(self)@.signature is None && has_label(
                old(self)@.assertions,
                label@,
            )) ==> (r matches Err(Error::DuplicateLabel { label: dup }) && dup@ == label@),
    {
        let a = match crate::assertion::new_assertion(
            label,
            AssertionData::LabeledCustomData { fields },
        ) {
            Ok(a) => a,
            Err(e) => {
                return Err(e);
            },
        };
        self.add_assertion(a)
    }

    /// Stores the ingredient snapshot that marks this manifest as an edit of
    /// the parent's asset. Fails with `DuplicateParent` when a parent is
    /// already set, and with `ImmutableManifest` on a signed manifest; a
    /// failed call leaves the manifest unchanged.
    pub fn set_parent(&mut self, ingredient: IngredientReference) -> (r: Result<(), Error>)
        ensures
            r is Ok <==> (old(self)@.signature is None && old(self)@.parent is None),
            r is Ok ==> final(self)@ == (ManifestModel {
                parent: Some(ingredient@),
                ..old(self)@
            }),
            r is Err ==> final(self)@ == old(self)@,
            old(self)@.signature is Some ==> r matches Err(Error::ImmutableManifest),
            (old(self)@.signature is None && old(self)@.parent is Some) ==> r matches Err(
                Error::DuplicateParent,
            ),
    {
        if self.signature.is_some() {
            return Err(Error::ImmutableManifest);
        }
        if self.parent.is_some() {
            return Err(Error::DuplicateParent);
        }
        self.parent = Some(ingredient);
        Ok(())
    }


    /// Binds this manifest to the given content digest and signs its
    /// canonical bytes with the given algorithm and key material. A manifest
    /// is signed at most once; empty key material cannot sign. A failed call
    /// leaves the manifest unchanged.
    pub fn sign(&mut self, alg: SigningAlg, key: &Vec<u8>, digest: ContentDigest) -> (r: Result<
        (),
        Error,
    >)
        ensures
            r is Ok <==> (old(self)@.signature is None && key@.len() > 0),
            old(self)@.signature is Some ==> r matches Err(Error::ImmutableManifest),
            (old(self)@.signature is None && key@.len() == 0) ==> r matches Err(Error::Signing),
            r is Err ==> final(self)@ == old(self)@,
            r is Ok ==> final(self)@ == (ManifestModel {
                signature: Some(
                    Signature {
                        alg,
                        tag: tag_of(
                            key@,
                            enc_manifest(
                                ManifestModel { content_digest: Some(digest), ..old(self)@ },
                            ),
                        ),
                    },
                ),
                content_digest: Some(digest),
                ..old(self)@
            }),
    {
        if self.signature.is_some() {
            return Err(Error::ImmutableManifest);
        }
        if key.len() == 0 {
            return Err(Error::Signing);
        }
        self.content_digest = Some(digest);
        let mut canon: Vec<u8> = Vec::new();
        enc_manifest_with_sig(self, None, &mut canon);
        proof {
            assert(ManifestModel { signature: None, ..self@ } =~= (ManifestModel {
                content_digest: Some(digest),
                ..old(self)@
            }));
            assert(canon@ =~= enc_manifest(
                ManifestModel { content_digest: Some(digest), ..old(self)@ },
            ));
        }
        match sign_bytes(&canon, alg, key) {
            Ok(sig) => {
                self.signature = Some(sig);
                Ok(())
            },
            Err(_) => Err(Error::Signing),
        }
    }

    /// The canonical bytes the signature covers: this manifest's wire form
    /// with an empty signature field.
    pub fn canonical_bytes(&self) -> (r: Vec<u8>)
        ensures
            r@ == enc_manifest(ManifestModel { signature: None, ..self@ }),
    {
        let mut out: Vec<u8> = Vec::new();
        enc_manifest_with_sig(self, None, &mut out);
        proof {
            assert(out@ =~= enc_manifest(ManifestModel { signature: None, ..self@ }));
        }
        out
    }


    /// An owned copy of this manifest, equal to it in every part.
    pub fn duplicate(&self) -> (r: Manifest)
        ensures
            r@ == self@,
    {
        let mut buf: Vec<u8> = Vec::new();
        enc_manifest_into(self, &mut buf);
        let fuel = buf.len() as u64;
        proof {
            crate::codec::lemma_dec_enc_manifest(self@, Seq::<u8>::empty(), fuel as nat);
            assert(enc_manifest(self@) + Seq::<u8>::empty() =~= buf@);
            assert(buf@.skip(0) =~= buf@);
        }
        match dec_manifest_at(&buf, 0, fuel) {
            Some((m, _)) => m,
            None => vstd::pervasive::unreached(),
        }
    }

    /// The claim generator identity this manifest was created with.
    pub fn claim_generator(&self) -> (r: &String)
        ensures
            r@ == self@.claim_generator,
    {
        &self.claim_generator
    }

    /// The manifest's title, when one is set.
    pub fn title(&self) -> (r: &Option<String>)
        ensures
            r matches Some(t) ==> self@.title == Some(t@),
            r is None ==> self@.title is None,
    {
        &self.title
    }

    /// The manifest's MIME format.
    pub fn format(&self) -> (r: &String)
        ensures
            r@ == self@.format,
    {
        &self.format
    }

    /// The assertions, in insertion order.
    pub fn assertions(&self) -> (r: &Vec<Assertion>)
        ensures
            r@.map_values(|a: Assertion| a@) == self@.assertions,
    {
        &self.assertions
    }

    /// The parent ingredient snapshot, when one is set.
    pub fn parent(&self) -> (r: &Option<IngredientReference>)
        ensures
            r matches Some(i) ==> self@.parent == Some(i@),
            r is None ==> self@.parent is None,
    {
        &self.parent
    }

    /// The detached signature, once signed.
    pub fn signature(&self) -> (r: Option<Signature>)
        ensures
            r == self@.signature,
    {
        self.signature
    }

    /// The digest of the asset content this manifest was bound to at signing.
    pub fn content_digest(&self) -> (r: Option<ContentDigest>)
        ensures
            r == self@.content_digest,
    {
        self.content_digest
    }
}


// ------------------------------------------------ wire form of manifests

/// Appends the wire form of this manifest, with `sig` in place of its
/// signature field.
#[verifier::spinoff_prover]
#[verifier::rlimit(100)]
fn enc_manifest_with_sig(m: &Manifest, sig: Option<Signature>, out: &mut Vec<u8>)
    ensures
        final(out)@ == old(out)@ + enc_manifest(ManifestModel { signature: sig, ..m@ }),
    decreases *m,
{
    enc_str_into(&m.claim_generator, out);
    enc_opt_str_into(&m.title, out);
    enc_str_into(&m.format, out);
    enc_assertions_into(&m.assertions, out);
    match &m.parent {
        None => {
            out.push(0u8);
        },
        Some(i) => {
            out.push(1u8);
            enc_ingredient_into(i, out);
        },
    }
    enc_opt_sig_into(sig, out);
    enc_opt_digest_into(m.content_digest, out);
    proof {
        let mm = ManifestModel { signature: sig, ..m@ };
        assert(out@ =~= old(out)@ + enc_manifest(mm));
    }
}

/// Appends the wire form of this manifest.
pub fn enc_manifest_into(m: &Manifest, out: &mut Vec<u8>)
    ensures
        final(out)@ == old(out)@ + enc_manifest(m@),
{
    let sig = m.signature;
    enc_manifest_with_sig(m, sig, out);
    proof {
        assert(ManifestModel { signature: m@.signature, ..m@ } =~= m@);
    }
}

/// Appends the wire form of an ingredient snapshot.
pub fn enc_ingredient_into(i: &IngredientReference, out: &mut Vec<u8>)
    ensures
        final(out)@ == old(out)@ + enc_ingredient(i@),
    decreases *i,
{
    enc_str_into(&i.instance_id, out);
    match &i.parent_manifest {
        None => {
            out.push(0u8);
        },
        Some(b) => {
            out.push(1u8);
            let sig = b.signature;
            enc_manifest_with_sig(b, sig, out);
            proof {
                assert(ManifestModel { signature: b@.signature, ..b@ } =~= b@);
            }
        },
    }
    proof {
        assert(out@ =~= old(out)@ + enc_ingredient(i@));
    }
}

/// Reads a manifest at `pos`.
#[verifier::spinoff_prover]
#[verifier::rlimit(100)]
pub fn dec_manifest_at(b: &Vec<u8>, pos: usize, fuel: u64) -> (r: Option<(Manifest, usize)>)
    requires
        pos <= b@.len(),
    ensures
        ({
            let d = dec_manifest(b@.skip(pos as int), fuel as nat);
            match r {
                Some((v, np)) => d matches Some(dv) && v@ == dv.0 && np as int == pos + dv.1 && pos
                    <= np && np <= b@.len(),
                None => d is None,
            }
        }),
    decreases fuel,
{
    if fuel == 0 {
        return None;
    }
    let (cg, p1) = match dec_str_at(b, pos) {
        Some(x) => x,
        None => {
            return None;
        },
    };
    proof {
        lemma_skip_skip(b@, pos as int, p1 - pos);
        assert(b@.skip(pos as int).skip(p1 - pos) == b@.skip(p1 as int));
    }
    let (ti, p2) = match dec_opt_str_at(b, p1) {
        Some(x) => x,
        None => {
            return None;
        },
    };
    proof {
        lemma_skip_skip(b@, pos as int, p2 - pos);
        assert(b@.skip(pos as int).skip(p2 - pos) == b@.skip(p2 as int));
    }
    let (fm, p3) = match dec_str_at(b, p2) {
        Some(x) => x,
        None => {
            return None;
        },
    };
    proof {
        lemma_skip_skip(b@, pos as int, p3 - pos);
        assert(b@.skip(pos as int).skip(p3 - pos) == b@.skip(p3 as int));
    }
    let (asr, p4) = match dec_assertions_at(b, p3, fuel) {
        Some(x) => x,
        None => {
            return None;
        },
    };
    proof {
        lemma_skip_skip(b@, pos as int, p4 - pos);
        assert(b@.skip(pos as int).skip(p4 - pos) == b@.skip(p4 as int));
    }
    if b.len() - p4 < 1 {
        return None;
    }
    let ptag = b[p4];
    proof {
        assert(b@.skip(p4 as int)[0] == b@[p4 as int]);
        lemma_skip_skip(b@, p4 as int, 1);
    }
    if ptag != 0 && ptag != 1 {
        return None;
    }
    let (pa, p5): (Option<IngredientReference>, usize) = if ptag == 0 {
        (None, p4 + 1)
    } else {
        match dec_ingredient_at(b, p4 + 1, fuel - 1) {
            Some((ig, np)) => (Some(ig), np),
            None => {
                return None;
            },
        }
    };
    proof {
        lemma_skip_skip(b@, pos as int, p5 - pos);
        assert(b@.skip(pos as int).skip(p5 - pos) == b@.skip(p5 as int));
    }
    let (sg, p6) = match dec_opt_sig_at(b, p5) {
        Some(x) => x,
        None => {
            return None;
        },
    };
    proof {
        lemma_skip_skip(b@, pos as int, p6 - pos);
        assert(b@.skip(pos as int).skip(p6 - pos) == b@.skip(p6 as int));
    }
    let (dg, p7) = match dec_opt_digest_at(b, p6) {
        Some(x) => x,
        None => {
            return None;
        },
    };
    let m = Manifest {
        claim_generator: cg,
        title: ti,
        format: fm,
        assertions: asr,
        parent: pa,
        signature: sg,
        content_digest: dg,
    };
    Some((m, p7))
}

/// Reads an ingredient snapshot at `pos`.
pub fn dec_ingredient_at(b: &Vec<u8>, pos: usize, fuel: u64) -> (r: Option<(
    IngredientReference,
    usize,
)>)
    requires
        pos <= b@.len(),
    ensures
        ({
            let d = dec_ingredient(b@.skip(pos as int), fuel as nat);
            match r {
                Some((v, np)) => d matches Some(dv) && v@ == dv.0 && np as int == pos + dv.1 && pos
                    <= np && np <= b@.len(),
                None => d is None,
            }
        }),
    decreases fuel,
{
    if fuel == 0 {
        return None;
    }
    let (iid, p1) = match dec_str_at(b, pos) {
        Some(x) => x,
        None => {
            return None;
        },
    };
    proof {
        lemma_skip_skip(b@, pos as int, p1 - pos);
        assert(b@.skip(pos as int).skip(p1 - pos) == b@.skip(p1 as int));
    }
    if b.len() - p1 < 1 {
        return None;
    }
    let tag = b[p1];
    proof {
        assert(b@.skip(p1 as int)[0] == b@[p1 as int]);
        lemma_skip_skip(b@, p1 as int, 1);
    }
    if tag == 0 {
        return Some((IngredientReference { instance_id: iid, parent_manifest: None }, p1 + 1));
    }
    if tag != 1 {
        return None;
    }
    match dec_manifest_at(b, p1 + 1, fuel - 1) {
        Some((pm, np)) => Some(
            (IngredientReference { instance_id: iid, parent_manifest: Some(Box::new(pm)) }, np),
        ),
        None => None,
    }
}


/// What an ingredient snapshot's view holds, for callers outside this module.
pub proof fn lemma_ingredient_view(i: &IngredientReference)
    ensures
        i@.instance_id == i.instance_id@,
        (i@.parent_manifest is Some) == (i.parent_manifest is Some),
        i.parent_manifest matches Some(b) ==> i@.parent_manifest == Some(Box::new((*b)@)),
{
}

} // verus!

use crate::store::{
    ValidationStatus, StatusCode, Severity, statuses_view, keys_view, walk_statuses,
    manifest_statuses, cyclic_status, validate_manifest, contains_id, walk_ok, chain_models,
};

verus! {

/// Walks a manifest and its ancestors, appending every status earned; a link
/// onto an already-visited asset version reports a cycle and stops.
pub(crate) fn validate_walk(
    m: &Manifest,
    actual: ContentDigest,
    roots: &Vec<Vec<u8>>,
    visited: Vec<String>,
    out: &mut Vec<ValidationStatus>,
)
    ensures
        statuses_view(final(out)@) == statuses_view(old(out)@) + walk_statuses(
            m@,
            actual,
            keys_view(roots@),
            visited@.map_values(|s: String| s@),
        ),
    decreases *m,
{
    validate_manifest(m, actual, roots, out);
    let ghost vs = visited@.map_values(|s: String| s@);
    match &m.parent {
        None => {
            proof {
                assert(statuses_view(out@) =~= statuses_view(old(out)@) + walk_statuses(
                    m@,
                    actual,
                    keys_view(roots@),
                    vs,
                ));
            }
        },
        Some(ing) => {
            proof {
                // ingredient view facts are visible in this module
                assert(ing@.instance_id == ing.instance_id@);
            }
            if contains_id(&visited, &ing.instance_id) {
                let ghost mid = out@;
                out.push(
                    ValidationStatus {
                        code: StatusCode::CyclicChainDetected,
                        assertion_label: None,
                        severity: Severity::Error,
                    },
                );
                proof {
                    assert(statuses_view(out@) =~= statuses_view(mid) + seq![cyclic_status()]);
                    assert(statuses_view(mid) + seq![cyclic_status()] =~= statuses_view(old(out)@)
                        + (manifest_statuses(m@, actual, keys_view(roots@)) + seq![
                        cyclic_status(),
                    ]));
                }
            } else {
                match &ing.parent_manifest {
                    Some(b) => {
                        let mut visited2 = visited;
                        let id = ing.instance_id.clone();
                        visited2.push(id);
                        proof {
                            assert(visited2@.map_values(|s: String| s@) =~= vs.push(
                                ing@.instance_id,
                            ));
                        }
                        validate_walk(b, actual, roots, visited2, out);
                        proof {
                            assert(statuses_view(out@) =~= statuses_view(old(out)@) + (
                            manifest_statuses(m@, actual, keys_view(roots@)) + walk_statuses(
                                (*b)@,
                                actual,
                                keys_view(roots@),
                                vs.push(ing@.instance_id),
                            )));
                        }
                    },
                    None => {
                        proof {
                            assert(statuses_view(out@) =~= statuses_view(old(out)@)
                                + walk_statuses(m@, actual, keys_view(roots@), vs));
                        }
                    },
                }
            }
        },
    }
}


/// Collects a manifest and its ancestors into `acc`, oldest last, failing
/// when a parent link revisits an already-seen asset version. On `Err`, what
/// `acc` holds is unspecified.
pub(crate) fn walk_chain(m: &Manifest, visited: Vec<String>, acc: &mut Vec<Manifest>) -> (r:
    Result<(), Error>)
    ensures
        ({
            let vs = visited@.map_values(|s: String| s@);
            &&& r is Ok <==> walk_ok(m@, vs)
            &&& r is Ok ==> final(acc)@.map_values(|x: Manifest| x@) == old(acc)@.map_values(
                |x: Manifest| x@,
            ) + chain_models(m@)
            &&& r is Err ==> r matches Err(Error::CyclicChain)
        }),
    decreases *m,
{
    let ghost vs = visited@.map_values(|s: String| s@);
    let ghost before = acc@;
    let copy = m.duplicate();
    acc.push(copy);
    proof {
        assert(acc@.map_values(|x: Manifest| x@) =~= before.map_values(|x: Manifest| x@)
            + seq![m@]);
    }
    match &m.parent {
        None => {
            proof {
                assert(before.map_values(|x: Manifest| x@) + seq![m@] =~= before.map_values(
                    |x: Manifest| x@,
                ) + chain_models(m@));
            }
            Ok(())
        },
        Some(ing) => {
            if contains_id(&visited, &ing.instance_id) {
                proof {
                    assert(ing@.instance_id == ing.instance_id@);
                }
                Err(Error::CyclicChain)
            } else {
                proof {
                    assert(ing@.instance_id == ing.instance_id@);
                }
                match &ing.parent_manifest {
                    None => {
                        proof {
                            assert(before.map_values(|x: Manifest| x@) + seq![m@]
                                =~= before.map_values(|x: Manifest| x@) + chain_models(m@));
                        }
                        Ok(())
                    },
                    Some(b) => {
                        let ghost mid = acc@;
                        let mut visited2 = visited;
                        let id = ing.instance_id.clone();
                        visited2.push(id);
                        proof {
                            assert(visited2@.map_values(|s: String| s@) =~= vs.push(
                                ing@.instance_id,
                            ));
                        }
                        let r = walk_chain(b, visited2, acc);
                        proof {
                            if r is Ok {
                                assert(acc@.map_values(|x: Manifest| x@) =~= before.map_values(
                                    |x: Manifest| x@,
                                ) + (seq![m@] + chain_models((*b)@)));
                                assert(before.map_values(|x: Manifest| x@) + (seq![m@]
                                    + chain_models((*b)@)) =~= before.map_values(|x: Manifest| x@)
                                    + chain_models(m@));
                            }
                        }
                        r
                    },
                }
            }
        },
    }
}

} // verus!
