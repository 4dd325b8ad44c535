//! The texts that the host exchanges with the backend: the addresses it
//! calls, the arguments it starts the backend with, and the body of a
//! settings update.

use crate::text::{decimal, decimal_text};
use vstd::prelude::*;
use vstd::string::StringExecFns;

verus! {

/// A key of ASCII letters alone, which JSON writes as it is.
pub open spec fn is_plain_key(key: Seq<char>) -> bool {
    forall|i: int|
        0 <= i < key.len() ==> ('a' as u32 <= (#[trigger] key[i]) as u32 <= 'z' as u32) || ('A' as u32
            <= key[i] as u32 <= 'Z' as u32)
}

/// The compact JSON text of an object with one member that is a truth value.
pub open spec fn flag_object(key: Seq<char>, value: bool) -> Seq<char> {
    seq!['{', '"'] + key + seq!['"', ':'] + (if value {
        seq!['t', 'r', 'u', 'e']
    } else {
        seq!['f', 'a', 'l', 's', 'e']
    }) + seq!['}']
}

/// Writes a JSON object with one boolean member through `serde_json`: a
/// `serde_json::Map` with the one entry, shown by `Value`'s `Display`, which
/// is the compact form. For a key of letters, which needs no escape, that is
/// the key in quotes, a colon, `true` or `false`, in braces.
#[verifier::external_body]
fn json_flag(key: &str, value: bool) -> (text: String)
    requires
        is_plain_key(key@),
    ensures
        text@ == flag_object(key@, value),
{
    let mut object = serde_json::Map::new();
    object.insert(key.to_string(), serde_json::Value::Bool(value));
    serde_json::Value::Object(object).to_string()
}

/// A port number in decimal.
pub fn port_text(port: u16) -> (text: String)
    ensures
        text@ == decimal(port as nat),
{
    decimal_text(port as u32)
}

/// The address of the backend's health endpoint.
pub fn health_url(port: u16) -> (url: String)
    ensures
        url@ == "http://localhost:"@ + decimal(port as nat) + "/health"@,
{
    let mut url = String::from_str("http://localhost:");
    url.append(port_text(port).as_str());
    url.append("/health");
    url
}

/// The address of the backend's endpoint for settings updates.
pub fn app_state_url(port: u16) -> (url: String)
    ensures
        url@ == "http://localhost:"@ + decimal(port as nat) + "/app-state"@,
{
    let mut url = String::from_str("http://localhost:");
    url.append(port_text(port).as_str());
    url.append("/app-state");
    url
}

/// The body of a settings update that sets the display preference.
pub fn dark_mode_body(enabled: bool) -> (body: String)
    ensures
        body@ == if enabled {
            "{\"darkMode\":true}"@
        } else {
            "{\"darkMode\":false}"@
        },
{
    proof {
        reveal_strlit("darkMode");
        reveal_strlit("{\"darkMode\":true}");
        reveal_strlit("{\"darkMode\":false}");
        assert(flag_object("darkMode"@, true) =~= "{\"darkMode\":true}"@);
        assert(flag_object("darkMode"@, false) =~= "{\"darkMode\":false}"@);
    }
    json_flag("darkMode", enabled)
}

/// Where the store lives, as the address that the database engine takes.
pub fn database_url(db_path: &str) -> (url: String)
    ensures
        url@ == "file:"@ + db_path@,
{
    let mut url = String::from_str("file:");
    url.append(db_path);
    url
}

/// The arguments that the backend is started with: the port to listen on
/// and the location of the store.
pub fn backend_arguments(port: u16, db_path: &str) -> (args: Vec<String>)
    ensures
        args.len() == 2,
        args[0]@ == "--server.port="@ + decimal(port as nat),
        args[1]@ == "--spring.datasource.url=jdbc:sqlite:"@ + db_path@,
{
    let mut port_argument = String::from_str("--server.port=");
    port_argument.append(port_text(port).as_str());
    let mut store_argument = String::from_str("--spring.datasource.url=jdbc:sqlite:");
    store_argument.append(db_path);
    let mut args: Vec<String> = Vec::new();
    args.push(port_argument);
    args.push(store_argument);
    args
}

/// The name of the event that tells the interface that the application
/// closes.
pub fn closing_event() -> (name: &'static str)
    ensures
        name@ == "app-closing"@,
{
    "app-closing"
}

/// The name of the event that asks the interface to switch the display
/// preference.
pub fn toggle_dark_mode_event() -> (name: &'static str)
    ensures
        name@ == "toggle-dark-mode"@,
{
    "toggle-dark-mode"
}

} // verus!
