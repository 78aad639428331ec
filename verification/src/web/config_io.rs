//! Configuration export and import: which parts of the configuration an
//! export carries, and how each failure of an import is answered.

use vstd::prelude::*;
use crate::text::{owned, str_eq, views};

verus! {

/// Top-level sections an export leaves out: the deployment-specific
/// storage and logging sections and the command-validation scaffold.
pub open spec fn excluded_section(name: Seq<char>) -> bool {
    name == "storage"@ || name == "logging"@ || name == "command_validation"@
}

/// Whether an export keeps the top-level section `name`.
pub fn export_keeps_section(name: &str) -> (r: bool)
    ensures
        r == !excluded_section(name@),
{
    !(str_eq(name, "storage") || str_eq(name, "logging") || str_eq(name, "command_validation"))
}

/// The secrets, by section: the ChirpStack API token and the OPC UA
/// password. An export never carries them, and an import keeps the
/// target's own.
pub open spec fn secret_field(section: Seq<char>, field: Seq<char>) -> bool {
    (section == "chirpstack"@ && field == "api_token"@) || (section == "opcua"@ && field == "user_password"@)
}

/// Whether `field` of `section` is a secret.
pub fn is_secret_field(section: &str, field: &str) -> (r: bool)
    ensures
        r == secret_field(section@, field@),
{
    (str_eq(section, "chirpstack") && str_eq(field, "api_token")) || (str_eq(section, "opcua") && str_eq(
        field,
        "user_password",
    ))
}

/// A top-level entry of a configuration as an export sees it: its name
/// and, when it is a table, the names of its fields.
#[derive(Clone, Debug, PartialEq, Eq)]
pub struct ExportSection {
    pub name: String,
    pub fields: Option<Vec<String>>,
}

/// An entry by its name and field names.
pub open spec fn section_view(s: ExportSection) -> (Seq<char>, Option<Seq<Seq<char>>>) {
    (
        s.name@,
        match s.fields {
            Some(f) => Some(views(f@)),
            None => None,
        },
    )
}

/// Views of a list of entries.
pub open spec fn section_views(s: Seq<ExportSection>) -> Seq<(Seq<char>, Option<Seq<Seq<char>>>)> {
    s.map_values(|e: ExportSection| section_view(e))
}

/// The fields of `section` that are not secrets, in order.
pub open spec fn public_fields(section: Seq<char>, fields: Seq<Seq<char>>) -> Seq<Seq<char>>
    decreases fields.len(),
{
    if fields.len() == 0 {
        Seq::empty()
    } else {
        let rest = public_fields(section, fields.drop_last());
        if secret_field(section, fields.last()) {
            rest
        } else {
            rest.push(fields.last())
        }
    }
}

/// What an export carries of `sections`: the kept sections, in order,
/// each without its secret fields.
pub open spec fn exported(sections: Seq<(Seq<char>, Option<Seq<Seq<char>>>)>) -> Seq<
    (Seq<char>, Option<Seq<Seq<char>>>),
>
    decreases sections.len(),
{
    if sections.len() == 0 {
        Seq::empty()
    } else {
        let rest = exported(sections.drop_last());
        let (name, fields) = sections.last();
        if excluded_section(name) {
            rest
        } else {
            rest.push(
                (
                    name,
                    match fields {
                        Some(fs) => Some(public_fields(name, fs)),
                        None => None,
                    },
                ),
            )
        }
    }
}

/// No field left by [`public_fields`] is a secret.
proof fn lemma_public_fields(section: Seq<char>, fields: Seq<Seq<char>>)
    ensures
        forall|j: int|
            0 <= j < public_fields(section, fields).len() ==> !secret_field(
                section,
                #[trigger] public_fields(section, fields)[j],
            ),
    decreases fields.len(),
{
    if fields.len() > 0 {
        lemma_public_fields(section, fields.drop_last());
        let rest = public_fields(section, fields.drop_last());
        assert forall|j: int| 0 <= j < public_fields(section, fields).len() implies !secret_field(
            section,
            #[trigger] public_fields(section, fields)[j],
        ) by {
            if j < rest.len() {
                assert(public_fields(section, fields)[j] == rest[j]);
            }
        }
    }
}

/// An export never carries an excluded section or a secret field.
pub proof fn lemma_export_has_no_secrets(sections: Seq<(Seq<char>, Option<Seq<Seq<char>>>)>)
    ensures
        forall|i: int|
            0 <= i < exported(sections).len() ==> !excluded_section((#[trigger] exported(sections)[i]).0) && (
            exported(sections)[i].1 matches Some(fs) ==> forall|j: int|
                0 <= j < fs.len() ==> !secret_field(exported(sections)[i].0, #[trigger] fs[j])),
    decreases sections.len(),
{
    if sections.len() > 0 {
        lemma_export_has_no_secrets(sections.drop_last());
        let (name, fields) = sections.last();
        if let Some(fs) = fields {
            lemma_public_fields(name, fs);
        }
    }
}

/// The fields of `section` that an export keeps.
fn keep_public_fields(section: &str, fields: &Vec<String>) -> (r: Vec<String>)
    ensures
        views(r@) == public_fields(section@, views(fields@)),
{
    let mut out: Vec<String> = Vec::new();
    let mut i: usize = 0;
    while i < fields.len()
        invariant
            i <= fields.len(),
            views(out@) == public_fields(section@, views(fields@).take(i as int)),
        decreases fields.len() - i,
    {
        proof {
            assert(views(fields@).take(i + 1).drop_last() =~= views(fields@).take(i as int));
        }
        if !is_secret_field(section, fields[i].as_str()) {
            let ghost before = out@;
            out.push(owned(fields[i].as_str()));
            proof {
                assert(views(out@) =~= views(before).push(fields@[i as int]@));
            }
        }
        i = i + 1;
    }
    proof {
        assert(views(fields@).take(fields.len() as int) =~= views(fields@));
    }
    out
}

/// What an export of `sections` carries: the kept sections, in order,
/// each table without its secret fields. No excluded section and no
/// secret field is ever in the result.
pub fn export_plan(sections: &Vec<ExportSection>) -> (r: Vec<ExportSection>)
    ensures
        section_views(r@) == exported(section_views(sections@)),
        forall|i: int|
            0 <= i < r@.len() ==> !excluded_section((#[trigger] r@[i]).name@) && (r@[i].fields matches Some(fs)
                ==> forall|j: int| 0 <= j < fs@.len() ==> !secret_field(r@[i].name@, #[trigger] fs@[j]@)),
{
    let mut out: Vec<ExportSection> = Vec::new();
    let mut i: usize = 0;
    while i < sections.len()
        invariant
            i <= sections.len(),
            section_views(out@) == exported(section_views(sections@).take(i as int)),
        decreases sections.len() - i,
    {
        let e = &sections[i];
        proof {
            assert(section_views(sections@).take(i + 1).drop_last() =~= section_views(sections@).take(i as int));
            assert(section_views(sections@).take(i + 1).last() == section_view(*e));
        }
        if export_keeps_section(e.name.as_str()) {
            let fields = match &e.fields {
                Some(fs) => Some(keep_public_fields(e.name.as_str(), fs)),
                None => None,
            };
            let kept = ExportSection { name: owned(e.name.as_str()), fields };
            let ghost before = out@;
            out.push(kept);
            proof {
                assert(section_views(out@) =~= section_views(before).push(section_view(kept)));
            }
        }
        i = i + 1;
    }
    proof {
        assert(section_views(sections@).take(sections.len() as int) =~= section_views(sections@));
        lemma_export_has_no_secrets(section_views(sections@));
        assert forall|i: int| 0 <= i < out@.len() implies !excluded_section((#[trigger] out@[i]).name@) && (
        out@[i].fields matches Some(fs) ==> forall|j: int|
            0 <= j < fs@.len() ==> !secret_field(out@[i].name@, #[trigger] fs@[j]@)) by {
            let ex = exported(section_views(sections@))[i];
            assert(section_views(out@)[i] == section_view(out@[i]));
            assert(ex == section_view(out@[i]));
            assert(!excluded_section(ex.0));
            if let Some(fs) = out@[i].fields {
                assert(ex.1 == Some(views(fs@)));
                assert forall|j: int| 0 <= j < fs@.len() implies !secret_field(out@[i].name@, #[trigger] fs@[j]@) by {
                    assert(views(fs@)[j] == fs@[j]@);
                    assert(!secret_field(ex.0, ex.1->0[j]));
                }
            }
        }
    }
    out
}

/// The body of `POST /api/config/import`: the TOML text of a configuration.
#[derive(Clone, Debug, PartialEq, Eq)]
pub struct ImportRequest {
    pub toml: String,
}

/// Why an import was refused before anything was written.
#[derive(Clone, Copy, Debug, PartialEq, Eq, Structural)]
pub enum ImportFailure {
    /// The body is not the JSON envelope `{"toml": ...}`.
    InvalidJson,
    /// The TOML does not parse or does not merge over the current configuration.
    InvalidToml,
    /// The merged configuration fails validation.
    ConfigInvalid,
}

/// A refused import: status, reason and hint of the `import_failed` body.
#[derive(Clone, Copy, Debug, PartialEq, Eq)]
pub struct ImportRefusal {
    pub status: u16,
    pub reason: &'static str,
    pub hint: &'static str,
}

/// The reason reported for each failure.
pub open spec fn import_reason(f: ImportFailure) -> Seq<char> {
    match f {
        ImportFailure::InvalidJson => "invalid_json"@,
        ImportFailure::InvalidToml => "invalid_toml"@,
        ImportFailure::ConfigInvalid => "config_invalid"@,
    }
}

/// The hint reported for each failure; the validation error itself is
/// only logged.
pub open spec fn import_hint(f: ImportFailure) -> Seq<char> {
    match f {
        ImportFailure::InvalidJson => "POST a JSON body of the shape {\"toml\": \"<config text>\"}"@,
        ImportFailure::InvalidToml => "the uploaded file is not a valid opcgw config TOML"@,
        ImportFailure::ConfigInvalid => "the imported configuration failed validation (e.g. duplicate IDs or out-of-range values). The full error is in the gateway log."@,
    }
}

/// The answer to a refused import: always 400, with the failure's reason
/// and hint.
pub fn import_refusal(f: ImportFailure) -> (r: ImportRefusal)
    ensures
        r.status == 400,
        r.reason@ == import_reason(f),
        r.hint@ == import_hint(f),
{
    match f {
        ImportFailure::InvalidJson => ImportRefusal {
            status: 400,
            reason: "invalid_json",
            hint: "POST a JSON body of the shape {\"toml\": \"<config text>\"}",
        },
        ImportFailure::InvalidToml => ImportRefusal {
            status: 400,
            reason: "invalid_toml",
            hint: "the uploaded file is not a valid opcgw config TOML",
        },
        ImportFailure::ConfigInvalid => ImportRefusal {
            status: 400,
            reason: "config_invalid",
            hint: "the imported configuration failed validation (e.g. duplicate IDs or out-of-range values). The full error is in the gateway log.",
        },
    }
}

} // verus!
