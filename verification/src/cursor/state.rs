//! Cursor's local state: where it is kept and how the proxy's public URL is
//! written into it.
use vstd::prelude::*;
use vstd::string::*;
use crate::config::{
    CURSOR_STATE_DB_RELATIVE_PATH, cursor_state_db_path_under, home_dir_text, home_text, opt_home,
    opt_str_view,
};
use crate::error::AppError;
use crate::json::{Json, JsonMap, JsonValue, encode_text, json_parse, json_text, map_insert, members_view, obj_set, parse_json};
use crate::paths::{join_path, path_with_extension, with_extension};
use crate::text::{concat, owned};

verus! {

/// The key under which Cursor keeps the application user's settings.
pub const APPLICATION_USER_KEY: &'static str = "src.vs.platform.reactivestorage.browser.reactiveStorageServiceImpl.persistentStorage.applicationUser";

/// What an update of Cursor's base URL did.
#[derive(Debug, PartialEq)]
pub struct CursorBaseUrlUpdate {
    pub db_path: String,
    pub old_url: Option<String>,
    pub new_url: String,
    pub backup_path: String,
}

/// Cursor's state database under the user's home directory.
pub fn default_cursor_state_db_path() -> (r: String)
    ensures
        exists|home: Option<Seq<char>>| r@ == cursor_state_db_path_under(home),
{
    let home = home_dir_text();
    let h = opt_home(&home);
    let r = join_path(home_text(h), CURSOR_STATE_DB_RELATIVE_PATH);
    assert(r@ == cursor_state_db_path_under(opt_str_view(h)));
    r
}

/// Where the state database is backed up before it is written.
pub fn cursor_backup_path(db_path: &str) -> (r: String)
    ensures
        r@ == with_extension(db_path@, "vscdb.bak"@),
{
    path_with_extension(db_path, "vscdb.bak")
}

/// The application user's settings with the base URL set: an object gets the
/// member set, anything else is replaced by an object holding only it.
pub open spec fn with_base_url(settings: Json, url: Seq<char>) -> Json {
    match settings {
        Json::Object(m) => Json::Object(obj_set(m, "openAIBaseUrl"@, Json::Str(url))),
        _ => Json::Object(seq![("openAIBaseUrl"@, Json::Str(url))]),
    }
}

/// The base URL the settings held, when they held one as text.
pub open spec fn previous_base_url(settings: Json) -> Option<Seq<char>> {
    match settings.get("openAIBaseUrl"@) {
        Some(Json::Str(u)) => Some(u),
        _ => None,
    }
}

/// Sets the base URL in the application user's settings, as Cursor stores
/// them (JSON text): gives the URL they held and the new text; settings that
/// are not JSON are an error naming the database.
pub fn update_application_user(db_path: &str, current_value: &str, new_url: &str) -> (r: Result<(Option<String>, String), AppError>)
    ensures
        match json_parse(current_value.spec_bytes()) {
            Err(e) => r matches Err(AppError::Config(m)) && m@ == "failed to parse Cursor application user JSON from "@
                + db_path@ + ": "@ + e,
            Ok(settings) => r matches Ok((old, encoded)) && crate::json::opt_text(old) == previous_base_url(settings)
                && encoded@ == json_text(with_base_url(settings, new_url@)),
        },
{
    let settings = match parse_json(current_value.as_bytes()) {
        Ok(v) => v,
        Err(e) => {
            let head = concat(concat("failed to parse Cursor application user JSON from ", db_path).as_str(), ": ");
            return Err(AppError::Config(concat(head.as_str(), e.as_str())));
        },
    };
    let old_url = match settings.get("openAIBaseUrl") {
        Some(JsonValue::Str(u)) => Some(u.clone()),
        _ => None,
    };
    let updated = match settings {
        JsonValue::Object(m) => {
            let mut m = m;
            map_insert(&mut m, owned("openAIBaseUrl"), JsonValue::string(new_url));
            JsonValue::Object(m)
        },
        _ => {
            let mut m: JsonMap = Vec::new();
            m.push((owned("openAIBaseUrl"), JsonValue::string(new_url)));
            assert(members_view(m@) =~= seq![("openAIBaseUrl"@, Json::Str(new_url@))]);
            JsonValue::Object(m)
        },
    };
    Ok((old_url, encode_text(&updated)))
}

} // verus!
