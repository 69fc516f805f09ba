//! Typed, schema-validated facts attachable to a manifest: authorship,
//! actions taken, embedded metadata, and arbitrary labeled application data.
//! Required-field rules are applied at construction and re-checked by the
//! validator on the read path.

use vstd::prelude::*;
use crate::action::{Action, ActionModel, pairs_view};
use crate::error::Error;

verus! {

/// Mathematical view of an assertion's payload.
#[verifier::ext_equal]
pub ghost enum AssertionDataModel {
    CreativeWork { author_name: Seq<char>, author_identifier: Seq<char> },
    ActionSet { actions: Seq<ActionModel> },
    EmbeddedMetadata { fields: Seq<(Seq<char>, Seq<char>)> },
    LabeledCustomData { fields: Seq<(Seq<char>, Seq<char>)> },
}

/// Mathematical view of an assertion.
#[verifier::ext_equal]
pub ghost struct AssertionModel {
    pub label: Seq<char>,
    pub data: AssertionDataModel,
}

/// An assertion's payload, polymorphic over the supported variants.
pub enum AssertionData {
    /// The created work and its author, after schema.org's CreativeWork.
    CreativeWork { author_name: String, author_identifier: String },
    /// An ordered set of recorded actions.
    ActionSet { actions: Vec<Action> },
    /// Embedded key/value metadata, such as Exif fields.
    EmbeddedMetadata { fields: Vec<(String, String)> },
    /// Arbitrary labeled application data as key/value pairs.
    LabeledCustomData { fields: Vec<(String, String)> },
}

/// One typed fact about the asset, under a label unique within its manifest.
pub struct Assertion {
    pub label: String,
    pub data: AssertionData,
}

impl View for AssertionData {
    type V = AssertionDataModel;

    open spec fn view(&self) -> AssertionDataModel {
        match self {
            AssertionData::CreativeWork { author_name, author_identifier } => (
            AssertionDataModel::CreativeWork {
                author_name: author_name@,
                author_identifier: author_identifier@,
            }),
            AssertionData::ActionSet { actions } => (AssertionDataModel::ActionSet {
                actions: actions@.map_values(|a: Action| a@),
            }),
            AssertionData::EmbeddedMetadata { fields } => (AssertionDataModel::EmbeddedMetadata {
                fields: pairs_view(fields@),
            }),
            AssertionData::LabeledCustomData { fields } => (AssertionDataModel::LabeledCustomData {
                fields: pairs_view(fields@),
            }),
        }
    }
}

impl View for Assertion {
    type V = AssertionModel;

    open spec fn view(&self) -> AssertionModel {
        AssertionModel { label: self.label@, data: self.data@ }
    }
}

/// The required-field rules of each payload variant.
pub open spec fn data_valid(d: AssertionDataModel) -> bool {
    match d {
        AssertionDataModel::CreativeWork { author_name, author_identifier } => {
            author_name.len() > 0 && author_identifier.len() > 0
        },
        AssertionDataModel::ActionSet { actions } => {
            &&& actions.len() > 0
            &&& forall|i: int| 0 <= i < actions.len() ==> (#[trigger] actions[i]).action_type.len()
                > 0
        },
        AssertionDataModel::EmbeddedMetadata { fields } => {
            forall|i: int| 0 <= i < fields.len() ==> (#[trigger] fields[i]).0.len() > 0
        },
        AssertionDataModel::LabeledCustomData { fields: _ } => true,
    }
}

/// An assertion is well-formed when its label is non-empty and its payload
/// meets its variant's required-field rules.
pub open spec fn assertion_valid(a: AssertionModel) -> bool {
    a.label.len() > 0 && data_valid(a.data)
}

/// The field a malformed assertion is reported for.
pub open spec fn invalid_field_name(a: AssertionModel) -> Seq<char> {
    if a.label.len() == 0 {
        "label"@
    } else {
        match a.data {
            AssertionDataModel::CreativeWork { author_name, author_identifier: _ } => {
                if author_name.len() == 0 {
                    "author_name"@
                } else {
                    "author_identifier"@
                }
            },
            AssertionDataModel::ActionSet { actions } => {
                if actions.len() == 0 {
                    "actions"@
                } else {
                    "action_type"@
                }
            },
            AssertionDataModel::EmbeddedMetadata { fields: _ } => "key"@,
            AssertionDataModel::LabeledCustomData { fields: _ } => "label"@,
        }
    }
}

/// Validates the required fields for the payload's variant and builds the
/// assertion. Fails with `InvalidAssertion` naming the offending field; the
/// rules reject nothing else — in particular, unknown action types are kept.
#[verifier::loop_isolation(false)]
pub fn new_assertion(label: String, data: AssertionData) -> (r: Result<Assertion, Error>)
    ensures
        r is Ok <==> assertion_valid(AssertionModel { label: label@, data: data@ }),
        r matches Ok(a) ==> a@ == (AssertionModel { label: label@, data: data@ }),
        r matches Err(e) ==> (e matches Error::InvalidAssertion { field } && field@
            == invalid_field_name(AssertionModel { label: label@, data: data@ })),
{
    proof {
        reveal_strlit("label");
        reveal_strlit("author_name");
        reveal_strlit("author_identifier");
        reveal_strlit("actions");
        reveal_strlit("action_type");
        reveal_strlit("key");
    }
    if label.as_str().is_empty() {
        return Err(Error::InvalidAssertion { field: "label".to_owned() });
    }
    match data {
        AssertionData::CreativeWork { author_name, author_identifier } => {
            if author_name.as_str().is_empty() {
                return Err(Error::InvalidAssertion { field: "author_name".to_owned() });
            }
            if author_identifier.as_str().is_empty() {
                return Err(Error::InvalidAssertion { field: "author_identifier".to_owned() });
            }
            Ok(
                Assertion {
                    label,
                    data: AssertionData::CreativeWork { author_name, author_identifier },
                },
            )
        },
        AssertionData::ActionSet { actions } => {
            if actions.len() == 0 {
                return Err(Error::InvalidAssertion { field: "actions".to_owned() });
            }
            let mut i: usize = 0;
            while i < actions.len()
                invariant
                    i <= actions.len(),
                    forall|j: int| 0 <= j < i ==> actions@[j]@.action_type.len() > 0,
                decreases actions.len() - i,
            {
                if actions[i].action_type.as_str().is_empty() {
                    proof {
                        let k = i as int;
                        let ms = actions@.map_values(|a: Action| a@);
                        assert(ms.len() == actions@.len());
                        assert(ms[k] == actions@[k]@);
                    }
                    return Err(Error::InvalidAssertion { field: "action_type".to_owned() });
                }
                i = i + 1;
            }
            proof {
                let ms = actions@.map_values(|a: Action| a@);
                assert forall|j: int| 0 <= j < ms.len() implies #[trigger] ms[j].action_type.len()
                    > 0 by {
                    assert(ms[j] == actions@[j]@);
                }
            }
            Ok(Assertion { label, data: AssertionData::ActionSet { actions } })
        },
        AssertionData::EmbeddedMetadata { fields } => {
            let mut i: usize = 0;
            while i < fields.len()
                invariant
                    i <= fields.len(),
                    forall|j: int| 0 <= j < i ==> fields@[j].0@.len() > 0,
                decreases fields.len() - i,
            {
                if fields[i].0.as_str().is_empty() {
                    proof {
                        let k = i as int;
                        let ms = pairs_view(fields@);
                        assert(ms.len() == fields@.len());
                        assert(ms[k].0 == fields@[k].0@);
                        assert(ms[k].0.len() == 0);
                        assert(data@ is EmbeddedMetadata);
                        assert(data@->EmbeddedMetadata_fields == ms);
                        assert(!data_valid(data@));
                        assert(invalid_field_name(AssertionModel { label: label@, data: data@ })
                            == "key"@);
                    }
                    return Err(Error::InvalidAssertion { field: "key".to_owned() });
                }
                i = i + 1;
            }
            proof {
                let ms = pairs_view(fields@);
                assert forall|j: int| 0 <= j < ms.len() implies #[trigger] ms[j].0.len() > 0 by {
                    assert(ms[j].0 == fields@[j].0@);
                }
            }
            Ok(Assertion { label, data: AssertionData::EmbeddedMetadata { fields } })
        },
        AssertionData::LabeledCustomData { fields } => {
            Ok(Assertion { label, data: AssertionData::LabeledCustomData { fields } })
        },
    }
}

/// A CreativeWork assertion under its standard label, with the author's
/// name and identifier as its required fields.
pub fn creative_work(author_name: String, author_identifier: String) -> (r: Result<
    Assertion,
    Error,
>)
    ensures
        r is Ok <==> (author_name@.len() > 0 && author_identifier@.len() > 0),
        r matches Ok(a) ==> a@ == (AssertionModel {
            label: "stds.schema-org.CreativeWork"@,
            data: AssertionDataModel::CreativeWork {
                author_name: author_name@,
                author_identifier: author_identifier@,
            },
        }),
        r matches Err(e) ==> e is InvalidAssertion,
{
    proof {
        reveal_strlit("stds.schema-org.CreativeWork");
    }
    new_assertion(
        "stds.schema-org.CreativeWork".to_owned(),
        AssertionData::CreativeWork { author_name, author_identifier },
    )
}

/// An ActionSet assertion under its standard label, from a non-empty list of
/// recorded actions.
pub fn action_set(actions: Vec<Action>) -> (r: Result<Assertion, Error>)
    ensures
        r is Ok <==> (actions@.len() > 0 && forall|i: int|
            0 <= i < actions@.len() ==> actions@[i]@.action_type.len() > 0),
        r matches Ok(a) ==> a@ == (AssertionModel {
            label: "c2pa.actions"@,
            data: AssertionDataModel::ActionSet {
                actions: actions@.map_values(|x: Action| x@),
            },
        }),
        r matches Err(e) ==> e is InvalidAssertion,
{
    let ghost gs = actions@;
    let r = new_assertion("c2pa.actions".to_owned(), AssertionData::ActionSet { actions });
    proof {
        reveal_strlit("c2pa.actions");
        let ms = gs.map_values(|x: Action| x@);
        assert forall|i: int| 0 <= i < ms.len() implies (#[trigger] ms[i]).action_type
            == gs[i]@.action_type by {}
        assert forall|i: int| 0 <= i < gs.len() implies (#[trigger] gs[i]@).action_type
            == ms[i].action_type by {}
    }
    r
}

/// An embedded-metadata assertion under the standard Exif label; every field
/// needs a non-empty key.
pub fn embedded_metadata(fields: Vec<(String, String)>) -> (r: Result<Assertion, Error>)
    ensures
        r is Ok <==> (forall|i: int| 0 <= i < fields@.len() ==> fields@[i].0@.len() > 0),
        r matches Ok(a) ==> a@ == (AssertionModel {
            label: "stds.exif"@,
            data: AssertionDataModel::EmbeddedMetadata { fields: pairs_view(fields@) },
        }),
        r matches Err(e) ==> e is InvalidAssertion,
{
    let ghost gs = fields@;
    let r = new_assertion("stds.exif".to_owned(), AssertionData::EmbeddedMetadata { fields });
    proof {
        reveal_strlit("stds.exif");
        let ms = pairs_view(gs);
        assert forall|i: int| 0 <= i < ms.len() implies (#[trigger] ms[i]).0 == gs[i].0@ by {}
        assert forall|i: int| 0 <= i < gs.len() implies (#[trigger] gs[i].0@) == ms[i].0 by {}
    }
    r
}


/// Re-checks the required-field rules, as the validator does on the read
/// path for assertions that came out of an asset.
#[verifier::loop_isolation(false)]
pub fn assertion_is_valid(a: &Assertion) -> (r: bool)
    ensures
        r == assertion_valid(a@),
{
    if a.label.as_str().is_empty() {
        return false;
    }
    match &a.data {
        AssertionData::CreativeWork { author_name, author_identifier } => {
            !author_name.as_str().is_empty() && !author_identifier.as_str().is_empty()
        },
        AssertionData::ActionSet { actions } => {
            let ghost ms = actions@.map_values(|x: Action| x@);
            if actions.len() == 0 {
                return false;
            }
            let mut i: usize = 0;
            while i < actions.len()
                invariant
                    i <= actions.len(),
                    forall|j: int| 0 <= j < i ==> (#[trigger] ms[j]).action_type.len() > 0,
                decreases actions.len() - i,
            {
                proof {
                    assert(ms.len() == actions@.len());
                    assert(ms[i as int] == actions@[i as int]@);
                }
                if actions[i].action_type.as_str().is_empty() {
                    proof {
                        assert(a.data is ActionSet);
                        assert(a@.data == (AssertionDataModel::ActionSet { actions: ms }));
                        assert(!data_valid(a@.data));
                        assert(!assertion_valid(a@));
                    }
                    return false;
                }
                i = i + 1;
            }
            true
        },
        AssertionData::EmbeddedMetadata { fields } => {
            let ghost ms = pairs_view(fields@);
            let mut i: usize = 0;
            while i < fields.len()
                invariant
                    i <= fields.len(),
                    forall|j: int| 0 <= j < i ==> (#[trigger] ms[j]).0.len() > 0,
                decreases fields.len() - i,
            {
                proof {
                    assert(ms.len() == fields@.len());
                    assert(ms[i as int].0 == fields@[i as int].0@);
                }
                if fields[i].0.as_str().is_empty() {
                    proof {
                        assert(a@.data == (AssertionDataModel::EmbeddedMetadata { fields: ms }));
                        assert(ms[i as int].0.len() == 0);
                        assert(!data_valid(AssertionDataModel::EmbeddedMetadata { fields: ms }))
                            by {
                            if data_valid(AssertionDataModel::EmbeddedMetadata { fields: ms }) {
                                let d = AssertionDataModel::EmbeddedMetadata { fields: ms };
                                let fs = d->EmbeddedMetadata_fields;
                                assert(fs == ms);
                                assert(0 <= (i as int) && (i as int) < fs.len());
                                assert(fs[i as int].0.len() > 0);
                                assert(ms[i as int].0.len() > 0);
                            }
                        }
                        assert(!assertion_valid(a@));
                    }
                    return false;
                }
                i = i + 1;
            }
            true
        },
        AssertionData::LabeledCustomData { fields: _ } => true,
    }
}

} // verus!
