//! Records kept by the storage layer: the life cycle of a downlink
//! command, its limits, the queue filter and the poller's status.

use vstd::prelude::*;
use crate::text::{cat, chars_of, hex_digit_char, str_eq, string_of};
use crate::web::auth::sha256;
use crate::web::csrf::{lower_ascii, lower_chars};
use std::str::FromStr;

verus! {

#[verifier::external_type_specification]
#[verifier::external_body]
pub struct ExJsonValue(serde_json::Value);

// ---------------------------------------------------------------------
// Command status
// ---------------------------------------------------------------------

/// Where a downlink command is in its life cycle.
#[derive(Clone, Copy, Debug, PartialEq, Eq, Structural)]
pub enum CommandStatus {
    Pending,
    Sent,
    Confirmed,
    Failed,
}

/// The display name of each status.
pub open spec fn status_name(s: CommandStatus) -> Seq<char> {
    match s {
        CommandStatus::Pending => "Pending"@,
        CommandStatus::Sent => "Sent"@,
        CommandStatus::Confirmed => "Confirmed"@,
        CommandStatus::Failed => "Failed"@,
    }
}

/// The status named `s`, case ignored; otherwise the refusal text.
/// (ASCII case folding decides as Unicode lowercasing would: no name
/// holds `k`, and the only other non-ASCII characters that lowercase to
/// ASCII letters become `i` followed by a combining mark.)
pub open spec fn status_named(s: Seq<char>) -> Result<CommandStatus, Seq<char>> {
    let l = lower_ascii(s);
    if l == "pending"@ {
        Ok(CommandStatus::Pending)
    } else if l == "sent"@ {
        Ok(CommandStatus::Sent)
    } else if l == "confirmed"@ {
        Ok(CommandStatus::Confirmed)
    } else if l == "failed"@ {
        Ok(CommandStatus::Failed)
    } else {
        Err("Unknown command status: "@ + s)
    }
}

impl CommandStatus {
    /// The display name of the status.
    pub fn as_str(self) -> (r: &'static str)
        ensures
            r@ == status_name(self),
    {
        match self {
            CommandStatus::Pending => "Pending",
            CommandStatus::Sent => "Sent",
            CommandStatus::Confirmed => "Confirmed",
            CommandStatus::Failed => "Failed",
        }
    }

    /// The display name of the status, owned.
    pub fn to_string(&self) -> (r: String)
        ensures
            r@ == status_name(*self),
    {
        self.as_str().to_string()
    }

    /// The status named `s`, case ignored.
    pub fn parse_name(s: &str) -> (r: Result<CommandStatus, String>)
        ensures
            match status_named(s@) {
                Ok(st) => r == Ok::<CommandStatus, String>(st),
                Err(msg) => r matches Err(m) && m@ == msg,
            },
    {
        let lowered = string_of(&lower_chars(&chars_of(s)));
        let l = lowered.as_str();
        if str_eq(l, "pending") {
            Ok(CommandStatus::Pending)
        } else if str_eq(l, "sent") {
            Ok(CommandStatus::Sent)
        } else if str_eq(l, "confirmed") {
            Ok(CommandStatus::Confirmed)
        } else if str_eq(l, "failed") {
            Ok(CommandStatus::Failed)
        } else {
            Err(cat("Unknown command status: ", s))
        }
    }
}

/// Reading back the display name of a status gives the status.
pub proof fn lemma_status_name_round_trip(s: CommandStatus)
    ensures
        status_named(status_name(s)) == Ok::<CommandStatus, Seq<char>>(s),
{
    reveal_strlit("Pending");
    reveal_strlit("Sent");
    reveal_strlit("Confirmed");
    reveal_strlit("Failed");
    reveal_strlit("pending");
    reveal_strlit("sent");
    reveal_strlit("confirmed");
    reveal_strlit("failed");
    let l = lower_ascii(status_name(s));
    match s {
        CommandStatus::Pending => {
            assert(l =~= "pending"@);
        },
        CommandStatus::Sent => {
            assert(l =~= "sent"@);
            assert(l != "pending"@);
        },
        CommandStatus::Confirmed => {
            assert(l =~= "confirmed"@);
            assert(l != "pending"@);
            assert(l != "sent"@);
        },
        CommandStatus::Failed => {
            assert(l =~= "failed"@);
            assert(l != "pending"@);
            assert(l != "sent"@);
            assert(l != "confirmed"@);
        },
    }
}

impl FromStr for CommandStatus {
    type Err = String;

    fn from_str(s: &str) -> (r: Result<Self, Self::Err>)
        ensures
            match status_named(s@) {
                Ok(st) => r == Ok::<CommandStatus, String>(st),
                Err(msg) => r matches Err(m) && m@ == msg,
            },
    {
        CommandStatus::parse_name(s)
    }
}

// ---------------------------------------------------------------------
// Downlink commands
// ---------------------------------------------------------------------

/// Largest LoRaWAN application payload accepted, in bytes.
pub const MAX_LORA_PAYLOAD_SIZE: usize = 250;

/// A downlink command queued for a device. Instants are milliseconds
/// since the Unix epoch, UTC.
#[derive(Clone, Debug)]
pub struct DeviceCommand {
    pub id: u64,
    pub device_id: String,
    pub payload: Vec<u8>,
    pub f_port: u8,
    pub status: CommandStatus,
    pub created_at: i64,
    pub error_message: Option<String>,
}

impl DeviceCommand {
    /// LoRaWAN application ports are 1 to 223.
    pub fn validate_f_port(f_port: u8) -> (r: bool)
        ensures
            r == (1 <= f_port && f_port <= 223),
    {
        1 <= f_port && f_port <= 223
    }

    /// A payload fits when it is at most [`MAX_LORA_PAYLOAD_SIZE`] bytes.
    pub fn validate_payload_size(payload: &[u8]) -> (r: bool)
        ensures
            r == (payload@.len() <= MAX_LORA_PAYLOAD_SIZE),
    {
        payload.len() <= MAX_LORA_PAYLOAD_SIZE
    }
}

/// A command issued through the OPC UA surface, with its audit trail.
/// Instants are milliseconds since the Unix epoch, UTC.
#[derive(Debug)]
pub struct Command {
    pub id: u64,
    pub device_id: String,
    pub metric_id: String,
    pub command_name: String,
    pub parameters: serde_json::Value,
    pub enqueued_at: i64,
    pub sent_at: Option<i64>,
    pub confirmed_at: Option<i64>,
    pub status: CommandStatus,
    pub error_message: Option<String>,
    pub command_hash: String,
    pub chirpstack_result_id: Option<String>,
}

/// Two lowercase hexadecimal digits per byte, in order.
pub open spec fn hex_bytes(b: Seq<u8>) -> Seq<char>
    decreases b.len(),
{
    if b.len() == 0 {
        Seq::empty()
    } else {
        hex_bytes(b.drop_last()) + seq![
            hex_digit_char((b.last() / 16) as nat),
            hex_digit_char((b.last() % 16) as nat),
        ]
    }
}

fn hex_char(d: u8) -> (c: char)
    requires
        d < 16,
    ensures
        c == hex_digit_char(d as nat),
{
    if d == 0 {
        '0'
    } else if d == 1 {
        '1'
    } else if d == 2 {
        '2'
    } else if d == 3 {
        '3'
    } else if d == 4 {
        '4'
    } else if d == 5 {
        '5'
    } else if d == 6 {
        '6'
    } else if d == 7 {
        '7'
    } else if d == 8 {
        '8'
    } else if d == 9 {
        '9'
    } else if d == 10 {
        'a'
    } else if d == 11 {
        'b'
    } else if d == 12 {
        'c'
    } else if d == 13 {
        'd'
    } else if d == 14 {
        'e'
    } else {
        'f'
    }
}

/// The lowercase hexadecimal text of `bytes`, two digits per byte
/// (what `{:x}` prints for a digest).
pub fn hex_string(bytes: &[u8]) -> (r: String)
    ensures
        r@ == hex_bytes(bytes@),
{
    let mut out: Vec<char> = Vec::new();
    let mut i: usize = 0;
    while i < bytes.len()
        invariant
            i <= bytes.len(),
            out@ == hex_bytes(bytes@.take(i as int)),
        decreases bytes.len() - i,
    {
        let b = bytes[i];
        out.push(hex_char(b / 16));
        out.push(hex_char(b % 16));
        proof {
            assert(bytes@.take(i + 1).drop_last() =~= bytes@.take(i as int));
            assert(out@ =~= hex_bytes(bytes@.take(i + 1)));
        }
        i = i + 1;
    }
    proof {
        assert(bytes@.take(bytes.len() as int) =~= bytes@);
    }
    string_of(&out)
}

/// The fingerprint of a command: the lowercase hex SHA-256 of the device
/// id, the command name and the parameters' JSON text, concatenated.
pub open spec fn command_fingerprint(device_id: Seq<char>, command_name: Seq<char>, params_json: Seq<char>) -> Seq<char> {
    hex_bytes(crate::web::auth::sha256_of(vstd::utf8::encode_utf8(device_id + command_name + params_json)))
}

/// The compact JSON text of a value, as `serde_json` writes it.
pub uninterp spec fn json_compact(value: serde_json::Value) -> Seq<char>;

/// `serde_json::Value::to_string`: the compact JSON text of a value.
#[verifier::external_body]
fn json_text(value: &serde_json::Value) -> (r: String)
    ensures
        r@ == json_compact(*value),
{
    value.to_string()
}

impl Command {
    /// The fingerprint of a command whose parameters have the JSON text
    /// `params_json`.
    pub fn compute_hash_of_json(device_id: &str, command_name: &str, params_json: &str) -> (r: String)
        ensures
            r@ == command_fingerprint(device_id@, command_name@, params_json@),
    {
        let head = cat(device_id, command_name);
        let content = cat(head.as_str(), params_json);
        let digest = sha256(content.as_str().as_bytes());
        hex_string(&digest)
    }

    /// The fingerprint of a command with `parameters`, written as compact
    /// JSON.
    pub fn compute_hash(device_id: &str, command_name: &str, parameters: &serde_json::Value) -> (r: String)
        ensures
            r@ == command_fingerprint(device_id@, command_name@, json_compact(*parameters)),
    {
        let params_json = json_text(parameters);
        Command::compute_hash_of_json(device_id, command_name, params_json.as_str())
    }
}

// ---------------------------------------------------------------------
// Queue filter and poller status
// ---------------------------------------------------------------------

/// Which commands a queue listing keeps; `None` fields do not filter.
#[derive(Clone, Debug)]
pub struct CommandFilter {
    pub device_id: Option<String>,
    pub status: Option<CommandStatus>,
    pub command_name_contains: Option<String>,
    pub older_than_days: Option<u32>,
}

impl Default for CommandFilter {
    fn default() -> (r: Self)
        ensures
            r.device_id is None,
            r.status is None,
            r.command_name_contains is None,
            r.older_than_days is None,
    {
        CommandFilter { device_id: None, status: None, command_name_contains: None, older_than_days: None }
    }
}

/// Reachability of the ChirpStack server as the poller last saw it; the
/// poll time is in milliseconds since the Unix epoch, UTC.
#[derive(Clone, Debug)]
pub struct ChirpstackStatus {
    pub server_available: bool,
    pub last_poll_time: Option<i64>,
    pub error_count: i32,
}

impl Default for ChirpstackStatus {
    fn default() -> (r: Self)
        ensures
            !r.server_available,
            r.last_poll_time is None,
            r.error_count == 0,
    {
        ChirpstackStatus { server_available: false, last_poll_time: None, error_count: 0 }
    }
}

/// The value of a lowercase hexadecimal digit.
pub open spec fn hex_value(c: char) -> int {
    if '0' <= c && c <= '9' {
        c as int - '0' as int
    } else {
        c as int - 'a' as int + 10
    }
}

proof fn lemma_hex_digit(d: nat)
    requires
        d < 16,
    ensures
        ('0' <= hex_digit_char(d) && hex_digit_char(d) <= '9') || ('a' <= hex_digit_char(d) && hex_digit_char(d)
            <= 'f'),
        hex_value(hex_digit_char(d)) == d,
{
}

/// The text of a digest is two lowercase hex digits per byte, in order,
/// and reading each pair back gives the byte.
pub proof fn law_hex_string(b: Seq<u8>)
    ensures
        hex_bytes(b).len() == 2 * b.len(),
        forall|i: int| 0 <= i < hex_bytes(b).len() ==> ('0' <= #[trigger] hex_bytes(b)[i] && hex_bytes(b)[i] <= '9')
            || ('a' <= hex_bytes(b)[i] && hex_bytes(b)[i] <= 'f'),
        forall|i: int|
            0 <= i < b.len() ==> hex_value(#[trigger] hex_bytes(b)[2 * i]) * 16 + hex_value(hex_bytes(b)[2 * i + 1])
                == b[i],
    decreases b.len(),
{
    if b.len() > 0 {
        let init = b.drop_last();
        law_hex_string(init);
        let x = b.last();
        let hi = (x / 16) as nat;
        let lo = (x % 16) as nat;
        lemma_hex_digit(hi);
        lemma_hex_digit(lo);
        let h = hex_bytes(b);
        let h0 = hex_bytes(init);
        assert(h == h0 + seq![hex_digit_char(hi), hex_digit_char(lo)]);
        assert forall|i: int| 0 <= i < h.len() implies ('0' <= #[trigger] h[i] && h[i] <= '9') || ('a' <= h[i]
            && h[i] <= 'f') by {
            if i < h0.len() {
                assert(h[i] == h0[i]);
            }
        }
        assert forall|i: int| 0 <= i < b.len() implies hex_value(#[trigger] h[2 * i]) * 16 + hex_value(h[2 * i + 1])
            == b[i] by {
            if i < init.len() {
                assert(h[2 * i] == h0[2 * i]);
                assert(h[2 * i + 1] == h0[2 * i + 1]);
                assert(b[i] == init[i]);
            } else {
                assert(h[2 * i] == hex_digit_char(hi));
                assert(h[2 * i + 1] == hex_digit_char(lo));
                assert(x == hi * 16 + lo);
            }
        }
    }
}

} // verus!
