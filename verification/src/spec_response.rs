//! What a connector says of itself, with the patches that stand beside it.

use crate::catalog::ConnectorSpec;
use crate::error::AtfError;
use crate::json::{
    file_content, option_json, read_file, read_json, readable_file, write_json, written, Json,
    JsonView,
};
use crate::merge::{
    law_patch_keeps_what_it_does_not_name, law_patch_sets_what_it_names, leaves_alone, member_at,
    merge_json, merge_patch,
};
use crate::protocol::SpecResponse;
use crate::serde_bridge::json_content;
use crate::text::{option_text, texts};
use vstd::prelude::*;
use vstd::utf8::encode_utf8;

verus! {

pub const PROTOCOL_VERSION: u32 = 3032023;

pub const SPEC_PATCH_FILE_NAME: &'static str = "spec.patch.json";

pub const OAUTH2_PATCH_FILE_NAME: &'static str = "oauth2.patch.json";

pub const DOC_URL_PATCH_FILE_NAME: &'static str = "documentation_url.patch.json";

/// The member of the documentation patch that holds the address.
pub const DOC_URL_MEMBER: &'static str = "documentation_url";

/// What is said of a connector once the patches are applied.
#[derive(Debug)]
pub struct PatchedSpec {
    /// The JSON schema of the connector's configuration.
    pub endpoint_spec: Json,
    /// How to authenticate.
    pub auth_spec: Option<Json>,
    pub documentation_url: String,
}

/// The parts of a connector's spec can be read.
pub open spec fn readable_spec(spec: ConnectorSpec) -> bool {
    &&& json_content(encode_utf8(spec.connection_specification@)) is Some
    &&& spec.auth_specification matches Some(auth) ==> json_content(encode_utf8(auth@)) is Some
}

/// A patch merged into the endpoint spec, where there is one.
pub open spec fn patched_endpoint(endpoint: JsonView, spec_patch: Option<JsonView>) -> JsonView {
    match spec_patch {
        Some(patch) => merge_patch(endpoint, patch),
        None => endpoint,
    }
}

/// A patch stands in place of what a connector says of how to authenticate.
pub open spec fn patched_auth(auth: Option<JsonView>, oauth2_patch: Option<JsonView>) -> Option<
    JsonView,
> {
    match oauth2_patch {
        Some(patch) => Some(patch),
        None => auth,
    }
}

/// The address that a documentation patch holds, where it holds one.
pub open spec fn address_of(patch: JsonView) -> Option<Seq<char>> {
    match patch {
        JsonView::Object(members) => if members.contains_key(DOC_URL_MEMBER@) {
            match members[DOC_URL_MEMBER@] {
                JsonView::String(address) => Some(address),
                _ => None,
            }
        } else {
            None
        },
        _ => None,
    }
}

/// The address of the documentation: that of the patch, if there is a patch, and the
/// connector's own otherwise; where that is missing, an empty text.
pub open spec fn documentation_address(
    own: Option<Seq<char>>,
    documentation_url_patch: Option<JsonView>,
) -> Seq<char> {
    let address = match documentation_url_patch {
        Some(patch) => address_of(patch),
        None => own,
    };
    match address {
        Some(a) => a,
        None => Seq::empty(),
    }
}

fn patched_address(own: Option<String>, documentation_url_patch: Option<Json>) -> (address: String)
    ensures
        address@ == documentation_address(
            option_text(own),
            option_json(documentation_url_patch),
        ),
{
    match documentation_url_patch {
        Some(patch) => match patch.get(DOC_URL_MEMBER) {
            Some(Json::String(address)) => address.clone(),
            _ => String::new(),
        },
        None => match own {
            Some(address) => address,
            None => String::new(),
        },
    }
}

/// Applies the patches, given as the texts of their files as far as there are any, to what a
/// connector says of itself.
pub fn patch_spec(
    spec: ConnectorSpec,
    spec_patch: Option<&str>,
    oauth2_patch: Option<&str>,
    documentation_url_patch: Option<&str>,
) -> (patched: Result<PatchedSpec, AtfError>)
    ensures
        match patched {
            Ok(p) => {
                &&& readable_spec(spec)
                &&& readable_file(spec_patch)
                &&& readable_file(oauth2_patch)
                &&& readable_file(documentation_url_patch)
                &&& p.endpoint_spec@ == patched_endpoint(
                    json_content(encode_utf8(spec.connection_specification@))->0,
                    file_content(spec_patch),
                )
                &&& option_json(p.auth_spec) == patched_auth(
                    match spec.auth_specification {
                        Some(auth) => json_content(encode_utf8(auth@)),
                        None => None,
                    },
                    file_content(oauth2_patch),
                )
                &&& p.documentation_url@ == documentation_address(
                    option_text(spec.documentation_url),
                    file_content(documentation_url_patch),
                )
            },
            Err(e) => e is Json && !(readable_spec(spec) && readable_file(spec_patch)
                && readable_file(oauth2_patch) && readable_file(documentation_url_patch)),
        },
        patched matches Ok(p) ==> (spec_patch matches Some(text) ==> p.endpoint_spec@ == merge_patch(
            json_content(encode_utf8(spec.connection_specification@))->0,
            json_content(encode_utf8(text@))->0,
        )),
{
    let endpoint_spec = match read_json(spec.connection_specification.as_str().as_bytes()) {
        Ok(json) => json,
        Err(e) => return Err(AtfError::Json(e)),
    };
    let own_auth = match &spec.auth_specification {
        Some(auth) => match read_json(auth.as_str().as_bytes()) {
            Ok(json) => Some(json),
            Err(e) => return Err(AtfError::Json(e)),
        },
        None => None,
    };
    let endpoint_patch = match read_file(spec_patch) {
        Ok(json) => json,
        Err(e) => return Err(AtfError::Json(e)),
    };
    let auth_patch = match read_file(oauth2_patch) {
        Ok(json) => json,
        Err(e) => return Err(AtfError::Json(e)),
    };
    let address_patch = match read_file(documentation_url_patch) {
        Ok(json) => json,
        Err(e) => return Err(AtfError::Json(e)),
    };
    let endpoint_spec = match endpoint_patch {
        Some(patch) => merge_json(endpoint_spec, patch),
        None => endpoint_spec,
    };
    let auth_spec = match auth_patch {
        Some(patch) => Some(patch),
        None => own_auth,
    };
    let documentation_url = patched_address(spec.documentation_url, address_patch);
    Ok(PatchedSpec { endpoint_spec, auth_spec, documentation_url })
}

/// Makes the response of what was patched. `endpoint_spec` is the endpoint spec once it was
/// mended to be a JSON schema, and `resource_config_schema_json` the text of the JSON schema
/// of a resource spec.
pub fn spec_response(
    patched: PatchedSpec,
    endpoint_spec: Json,
    resource_config_schema_json: String,
) -> (response: Result<SpecResponse, AtfError>)
    ensures
        response matches Ok(r) && {
            &&& r.protocol == PROTOCOL_VERSION
            &&& written(r.config_schema_json@, endpoint_spec@)
            &&& r.resource_config_schema_json == resource_config_schema_json
            &&& r.oauth2 == patched.auth_spec
            &&& r.documentation_url == patched.documentation_url
            &&& texts(r.resource_path_pointers@) == seq!["/namespace"@, "/stream"@]
        },
{
    let config_schema_json = match write_json(endpoint_spec) {
        Ok(text) => text,
        Err(e) => return Err(AtfError::Json(e)),
    };
    let mut pointers: Vec<String> = Vec::new();
    pointers.push("/namespace".to_owned());
    pointers.push("/stream".to_owned());
    assert(texts(pointers@) =~= seq!["/namespace"@, "/stream"@]);
    Ok(
        SpecResponse {
            protocol: PROTOCOL_VERSION,
            config_schema_json,
            resource_config_schema_json,
            oauth2: patched.auth_spec,
            documentation_url: patched.documentation_url,
            resource_path_pointers: pointers,
        },
    )
}

/// A patch of how to authenticate overrides what the connector says of it.
pub proof fn law_oauth2_patch_overrides(
    auth: Option<JsonView>,
    other_auth: Option<JsonView>,
    patch: JsonView,
)
    ensures
        patched_auth(auth, Some(patch)) == Some(patch),
        patched_auth(auth, Some(patch)) == patched_auth(other_auth, Some(patch)),
{
}

/// Without patches, what a connector says of itself stands.
pub proof fn law_without_patches_the_spec_stands(
    endpoint: JsonView,
    auth: Option<JsonView>,
    own_address: Seq<char>,
)
    ensures
        patched_endpoint(endpoint, None) == endpoint,
        patched_auth(auth, None) == auth,
        documentation_address(Some(own_address), None) == own_address,
{
}

/// A documentation patch decides the address alone: the connector's own never shows through.
pub proof fn law_documentation_patch_decides(
    own: Option<Seq<char>>,
    other: Option<Seq<char>>,
    patch: JsonView,
)
    ensures
        documentation_address(own, Some(patch)) == documentation_address(other, Some(patch)),
        address_of(patch) matches Some(address) ==> documentation_address(own, Some(patch))
            == address,
{
}

/// The patched endpoint spec is the connector's own with the patch merged into it, and the
/// connector's own where there is no patch. At every depth, what the patch does not name stays
/// as the connector says it, what it gives stands there, and where it gives null nothing does.
pub proof fn law_spec_patch_is_merged(
    spec: ConnectorSpec,
    spec_patch: Option<&str>,
    endpoint: JsonView,
    patched: PatchedSpec,
    path: Seq<Seq<char>>,
)
    requires
        json_content(encode_utf8(spec.connection_specification@)) == Some(endpoint),
        readable_file(spec_patch),
        patched.endpoint_spec@ == patched_endpoint(
            json_content(encode_utf8(spec.connection_specification@))->0,
            file_content(spec_patch),
        ),
    ensures
        spec_patch is None ==> patched.endpoint_spec@ == endpoint,
        spec_patch matches Some(text) ==> {
            &&& json_content(encode_utf8(text@)) matches Some(patch)
            &&& patched.endpoint_spec@ == merge_patch(endpoint, patch)
            &&& leaves_alone(patch, path) ==> member_at(patched.endpoint_spec@, path) == member_at(
                endpoint,
                path,
            )
            &&& member_at(patch, path) matches Some(value) ==> {
                &&& value !is Object && value !is Null ==> member_at(patched.endpoint_spec@, path)
                    == Some(value)
                &&& value is Null && path.len() > 0 ==> member_at(
                    patched.endpoint_spec@,
                    path,
                ) is None
            }
        },
{
    if let Some(text) = spec_patch {
        let patch = json_content(encode_utf8(text@))->0;
        if leaves_alone(patch, path) {
            law_patch_keeps_what_it_does_not_name(endpoint, patch, path);
        }
        if let Some(value) = member_at(patch, path) {
            law_patch_sets_what_it_names(endpoint, patch, path, value);
        }
    }
}

/// How to authenticate is what the patch says, as a whole, where there is one, and what the
/// connector says otherwise.
pub proof fn law_authentication_is_the_patchs_or_the_connectors(
    spec: ConnectorSpec,
    oauth2_patch: Option<&str>,
    patched: PatchedSpec,
)
    requires
        readable_spec(spec),
        readable_file(oauth2_patch),
        option_json(patched.auth_spec) == patched_auth(
            match spec.auth_specification {
                Some(auth) => json_content(encode_utf8(auth@)),
                None => None,
            },
            file_content(oauth2_patch),
        ),
    ensures
        oauth2_patch matches Some(text) ==> (patched.auth_spec matches Some(auth)
            && json_content(encode_utf8(text@)) == Some(auth@)),
        oauth2_patch is None ==> (spec.auth_specification matches Some(own) ==> (
        patched.auth_spec matches Some(auth) && json_content(encode_utf8(own@)) == Some(auth@))),
        oauth2_patch is None && spec.auth_specification is None ==> patched.auth_spec is None,
{
}

/// The address of the documentation is the string under `documentation_url` in the patch. It is
/// empty where there is a patch without such a string, and the connector's own, if any, where
/// there is no patch.
pub proof fn law_address_is_the_patchs_or_the_connectors(
    spec: ConnectorSpec,
    documentation_url_patch: Option<&str>,
    patched: PatchedSpec,
)
    requires
        readable_file(documentation_url_patch),
        patched.documentation_url@ == documentation_address(
            option_text(spec.documentation_url),
            file_content(documentation_url_patch),
        ),
    ensures
        documentation_url_patch is None ==> patched.documentation_url@ == (
        match spec.documentation_url {
            Some(own) => own@,
            None => Seq::empty(),
        }),
        documentation_url_patch matches Some(text) ==> {
            &&& json_content(encode_utf8(text@)) matches Some(patch)
            &&& forall|address: Seq<char>|
                member_at(patch, seq!["documentation_url"@]) == Some(JsonView::String(address))
                    ==> patched.documentation_url@ == address
            &&& !(member_at(patch, seq!["documentation_url"@]) matches Some(JsonView::String(_)))
                ==> patched.documentation_url@.len() == 0
        },
{
    let path = seq!["documentation_url"@];
    assert(path.drop_first() =~= Seq::empty());
    reveal_with_fuel(member_at, 2);
}

/// A connector's spec is refused exactly where one of its texts, or a patch beside it, cannot be
/// read.
pub proof fn law_unreadable_specs_are_told(spec: ConnectorSpec, patch: &str)
    ensures
        readable_spec(spec) <==> json_content(
            encode_utf8(spec.connection_specification@),
        ) is Some && (spec.auth_specification matches Some(auth) ==> json_content(
            encode_utf8(auth@),
        ) is Some),
        readable_file(Some(patch)) <==> json_content(encode_utf8(patch@)) is Some,
        readable_file(None),
{
}

/// The files that patch a spec, and the version of the protocol.
pub proof fn law_spec_files_are_known()
    ensures
        SPEC_PATCH_FILE_NAME@ == "spec.patch.json"@,
        OAUTH2_PATCH_FILE_NAME@ == "oauth2.patch.json"@,
        DOC_URL_PATCH_FILE_NAME@ == "documentation_url.patch.json"@,
        PROTOCOL_VERSION == 3032023,
{
}

} // verus!
