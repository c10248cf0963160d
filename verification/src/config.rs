//! The configuration that a connector is given.

use crate::error::AtfError;
use crate::json::{file_content, option_json, read_file, read_json, readable_file, Json};
use crate::serde_bridge::json_content;
use vstd::prelude::*;
use vstd::utf8::encode_utf8;

verus! {

pub const SPEC_MAP_FILE_NAME: &'static str = "spec.map.json";

/// A configuration, and the mapping by which its fields are still to be moved.
#[derive(Debug)]
pub struct Config {
    pub config: Json,
    pub mapping: Option<Json>,
}

/// Reads a configuration, and the mapping of its fields where there is a file with one.
pub fn adapt_config_json(config_json: &[u8], spec_map: Option<&str>) -> (config: Result<
    Config,
    AtfError,
>)
    ensures
        match config {
            Ok(c) => {
                &&& json_content(config_json@) == Some(c.config@)
                &&& readable_file(spec_map)
                &&& option_json(c.mapping) == file_content(spec_map)
            },
            Err(e) => e is Json && !(json_content(config_json@) is Some && readable_file(spec_map)),
        },
{
    let mapping = match read_file(spec_map) {
        Ok(json) => json,
        Err(e) => return Err(AtfError::Json(e)),
    };
    match read_json(config_json) {
        Ok(config) => Ok(Config { config, mapping }),
        Err(e) => Err(AtfError::Json(e)),
    }
}

/// The mapping of a configuration is what the file beside the connector reads as, and there is
/// none where there is no such file.
pub proof fn law_mapping_is_as_it_was_written(
    spec_map: Option<&str>,
    config: Config,
)
    requires
        readable_file(spec_map),
        option_json(config.mapping) == file_content(spec_map),
    ensures
        spec_map matches Some(text) ==> (config.mapping matches Some(mapping) && json_content(
            encode_utf8(text@),
        ) == Some(mapping@)),
        spec_map is None ==> config.mapping is None,
        SPEC_MAP_FILE_NAME@ == "spec.map.json"@,
{
}

} // verus!
