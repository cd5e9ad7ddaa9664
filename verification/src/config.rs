//! The server's configuration, from its environment.

use vstd::prelude::*;
use vstd::string::StrSliceExecFns;
use vstd::utf8::{decode_utf8, encode_utf8, valid_utf8};
use crate::crypto::{decode_hex, hex_value, is_hex};

verus! {

/// Where the identity is kept unless configured.
pub const DEFAULT_IDENTITY_PATH: &'static str = ".glyph_identity";

/// Where the vault is kept unless configured.
pub const DEFAULT_VAULT_PATH: &'static str = "vault.redb";

/// Where push tokens are kept unless configured.
pub const DEFAULT_TOKENS_PATH: &'static str = "tokens.redb";

/// The length of the server secret, in bytes.
pub const SECRET_LEN: usize = 32;

/// What the service manager passes as a credential.
#[derive(Debug, Clone, PartialEq, Eq)]
pub enum CredentialSource {
    /// No directory of credentials is named.
    NoDirectory,
    /// The directory holds no credential of the server's.
    NoFile,
    /// The content of the credential.
    File(Vec<u8>),
}

/// The environment that the server starts in. A variable that is not set, or not
/// text, is `None`.
#[derive(Debug, Clone, PartialEq, Eq)]
pub struct Environment {
    pub credential: CredentialSource,
    pub server_secret: Option<String>,
    pub identity_path: Option<String>,
    pub vault_path: Option<String>,
    pub tokens_path: Option<String>,
    pub webhook_url: Option<String>,
}

/// The server's configuration.
#[derive(Debug, Clone, PartialEq, Eq)]
pub struct ServerConfig {
    pub identity_path: String,
    pub vault_path: String,
    pub tokens_path: String,
    /// The push gateway, if there is one.
    pub webhook_url: Option<String>,
    /// A secret for the push gateway alone. Not read from the environment.
    pub webhook_secret: Option<[u8; 32]>,
    /// The secret under which tokens are blinded and notifications signed.
    pub server_secret: [u8; 32],
}

/// Why an environment makes no configuration.
#[derive(Debug, Clone, Copy, PartialEq, Eq, Structural)]
pub enum ConfigError {
    /// Neither a directory of credentials nor the variable is there.
    SecretMissing,
    /// The directory of credentials holds none for the server, and the variable is
    /// not there.
    SecretMissingNoCredential,
    /// The variable is not hexadecimal.
    SecretNotHex,
    /// The credential is neither 32 bytes nor text.
    CredentialNotUtf8,
    /// The credential is neither 32 bytes nor hexadecimal.
    CredentialNotHex,
    /// The secret is not 32 bytes long.
    SecretLength,
}

impl ConfigError {
    /// What to tell the operator.
    pub open spec fn text(self) -> Seq<char> {
        match self {
            ConfigError::SecretMissing => "GLYPH_SERVER_SECRET must be set"@,
            ConfigError::SecretMissingNoCredential => "GLYPH_SERVER_SECRET must be set (no systemd credentials found)"@,
            ConfigError::SecretNotHex => "GLYPH_SERVER_SECRET must be 64 hex characters"@,
            ConfigError::CredentialNotUtf8 => "Systemd credential is not valid UTF-8 and not 32 bytes raw binary"@,
            ConfigError::CredentialNotHex => "Systemd credential must be either 32 raw bytes or 64 hex characters"@,
            ConfigError::SecretLength => "Server secret must be 32 bytes"@,
        }
    }

    /// What to tell the operator.
    pub fn message(&self) -> (message: String)
        ensures
            message@ == self.text(),
    {
        let text = match self {
            ConfigError::SecretMissing => "GLYPH_SERVER_SECRET must be set",
            ConfigError::SecretMissingNoCredential => "GLYPH_SERVER_SECRET must be set (no systemd credentials found)",
            ConfigError::SecretNotHex => "GLYPH_SERVER_SECRET must be 64 hex characters",
            ConfigError::CredentialNotUtf8 => "Systemd credential is not valid UTF-8 and not 32 bytes raw binary",
            ConfigError::CredentialNotHex => "Systemd credential must be either 32 raw bytes or 64 hex characters",
            ConfigError::SecretLength => "Server secret must be 32 bytes",
        };
        text.to_owned()
    }
}

// ---------------------------------------------------------------------------
// Text
// ---------------------------------------------------------------------------

/// Whether a character has the Unicode property `White_Space`.
pub open spec fn is_white_space(c: char) -> bool {
    ||| 0x09 <= c as int <= 0x0d
    ||| c as int == 0x20
    ||| c as int == 0x85
    ||| c as int == 0xa0
    ||| c as int == 0x1680
    ||| 0x2000 <= c as int <= 0x200a
    ||| c as int == 0x2028
    ||| c as int == 0x2029
    ||| c as int == 0x202f
    ||| c as int == 0x205f
    ||| c as int == 0x3000
}

/// `text` without white space at its ends.
pub open spec fn trimmed(text: Seq<char>) -> Seq<char>
    decreases text.len(),
{
    if text.len() == 0 {
        text
    } else if is_white_space(text[0]) {
        trimmed(text.skip(1))
    } else if is_white_space(text.last()) {
        trimmed(text.drop_last())
    } else {
        text
    }
}

/// Calls `str::trim`. Claims that it removes the characters with the Unicode
/// property `White_Space` from both ends, and nothing else.
#[verifier::external_body]
fn trim_text(text: &str) -> (result: &str)
    ensures
        result@ == trimmed(text@),
{
    text.trim()
}

/// Calls `String::from_utf8`. Claims that it succeeds exactly on valid UTF-8 and
/// then returns the text that the bytes encode.
#[verifier::external_body]
fn text_of_bytes(bytes: Vec<u8>) -> (result: Option<String>)
    ensures
        result is Some <==> valid_utf8(bytes@),
        result matches Some(text) ==> text@ == decode_utf8(bytes@),
{
    String::from_utf8(bytes).ok()
}

/// A character in lower case if it is an ASCII letter.
pub open spec fn lower_ascii(c: char) -> char {
    if 'A' <= c <= 'Z' {
        (c as int + 32) as char
    } else {
        c
    }
}

/// Whether two texts are the same but for the case of ASCII letters.
pub open spec fn same_ignoring_case(a: Seq<char>, b: Seq<char>) -> bool {
    a.map_values(|c: char| lower_ascii(c)) == b.map_values(|c: char| lower_ascii(c))
}

/// A character in lower case if it is an ASCII letter.
fn to_lower_ascii(c: char) -> (lower: char)
    ensures
        lower == lower_ascii(c),
{
    if 'A' <= c && c <= 'Z' {
        ((c as u8) + 32) as char
    } else {
        c
    }
}

/// Whether two texts are the same but for the case of ASCII letters.
fn equal_ignoring_case(a: &str, b: &str) -> (same: bool)
    ensures
        same == same_ignoring_case(a@, b@),
{
    let ghost lower_a = a@.map_values(|c: char| lower_ascii(c));
    let ghost lower_b = b@.map_values(|c: char| lower_ascii(c));
    let len: usize = a.unicode_len();
    if len != b.unicode_len() {
        assert(lower_a.len() != lower_b.len());
        return false;
    }
    let mut i: usize = 0;
    while i < len
        invariant
            i <= len,
            len == a@.len() == b@.len(),
            lower_a == a@.map_values(|c: char| lower_ascii(c)),
            lower_b == b@.map_values(|c: char| lower_ascii(c)),
            forall|j: int| 0 <= j < i ==> lower_a[j] == lower_b[j],
        decreases len - i,
    {
        if to_lower_ascii(a.get_char(i)) != to_lower_ascii(b.get_char(i)) {
            assert(lower_a[i as int] != lower_b[i as int]);
            return false;
        }
        assert(lower_a[i as int] == lower_b[i as int]);
        i = i + 1;
    }
    assert(lower_a =~= lower_b);
    true
}

// ---------------------------------------------------------------------------
// The server secret
// ---------------------------------------------------------------------------

/// The bytes that a text of hexadecimal digits stands for, white space at its
/// ends aside, if it is one.
pub open spec fn secret_of_text(text: Seq<char>) -> Option<Seq<u8>> {
    let digits = encode_utf8(trimmed(text));
    if is_hex(digits) {
        Some(hex_value(digits))
    } else {
        None
    }
}

/// The secret in an environment, before its length is looked at, or why there is
/// none: the credential if there is one, and else the variable. A credential of 32
/// bytes is the secret itself, any other is the secret in hexadecimal.
pub open spec fn secret_bytes(credential: CredentialSource, variable: Option<String>) -> Result<
    Seq<u8>,
    ConfigError,
> {
    match credential {
        CredentialSource::File(raw) => if raw@.len() == SECRET_LEN {
            Ok(raw@)
        } else if !valid_utf8(raw@) {
            Err(ConfigError::CredentialNotUtf8)
        } else {
            match secret_of_text(decode_utf8(raw@)) {
                Some(bytes) => Ok(bytes),
                None => Err(ConfigError::CredentialNotHex),
            }
        },
        _ => match variable {
            Some(text) => match secret_of_text(text@) {
                Some(bytes) => Ok(bytes),
                None => Err(ConfigError::SecretNotHex),
            },
            None => if credential is NoDirectory {
                Err(ConfigError::SecretMissing)
            } else {
                Err(ConfigError::SecretMissingNoCredential)
            },
        },
    }
}

/// The server secret in an environment, or why there is none.
pub open spec fn secret_in(credential: CredentialSource, variable: Option<String>) -> Result<
    Seq<u8>,
    ConfigError,
> {
    match secret_bytes(credential, variable) {
        Ok(bytes) => if bytes.len() == SECRET_LEN {
            Ok(bytes)
        } else {
            Err(ConfigError::SecretLength)
        },
        Err(error) => Err(error),
    }
}

/// A path that was configured, or else its default.
pub open spec fn path_or(path: Option<String>, default: Seq<char>) -> Seq<char> {
    match path {
        Some(path) => path@,
        None => default,
    }
}

fn decode_secret_text(text: &str) -> (result: Option<Vec<u8>>)
    ensures
        result is Some <==> secret_of_text(text@) is Some,
        result matches Some(bytes) ==> bytes@ == secret_of_text(text@)->0,
{
    decode_hex(trim_text(text).as_bytes())
}

fn read_secret(credential: CredentialSource, variable: Option<String>) -> (result: Result<
    Vec<u8>,
    ConfigError,
>)
    ensures
        match result {
            Ok(bytes) => secret_bytes(credential, variable) == Ok::<Seq<u8>, ConfigError>(bytes@),
            Err(error) => secret_bytes(credential, variable) == Err::<Seq<u8>, ConfigError>(error),
        },
{
    match credential {
        CredentialSource::File(raw) => {
            if raw.len() == SECRET_LEN {
                return Ok(raw);
            }
            let text = match text_of_bytes(raw) {
                Some(text) => text,
                None => return Err(ConfigError::CredentialNotUtf8),
            };
            match decode_secret_text(text.as_str()) {
                Some(bytes) => Ok(bytes),
                None => Err(ConfigError::CredentialNotHex),
            }
        },
        CredentialSource::NoDirectory => match variable {
            Some(text) => match decode_secret_text(text.as_str()) {
                Some(bytes) => Ok(bytes),
                None => Err(ConfigError::SecretNotHex),
            },
            None => Err(ConfigError::SecretMissing),
        },
        CredentialSource::NoFile => match variable {
            Some(text) => match decode_secret_text(text.as_str()) {
                Some(bytes) => Ok(bytes),
                None => Err(ConfigError::SecretNotHex),
            },
            None => Err(ConfigError::SecretMissingNoCredential),
        },
    }
}

/// 32 bytes as an array.
fn to_array(bytes: &Vec<u8>) -> (array: [u8; 32])
    requires
        bytes@.len() == SECRET_LEN,
    ensures
        array@ == bytes@,
{
    let mut array = [0u8; 32];
    let mut i: usize = 0;
    while i < SECRET_LEN
        invariant
            i <= SECRET_LEN,
            bytes@.len() == SECRET_LEN,
            array@.len() == SECRET_LEN,
            forall|j: int| 0 <= j < i ==> array@[j] == bytes@[j],
        decreases SECRET_LEN - i,
    {
        array[i] = bytes[i];
        i = i + 1;
    }
    assert(array@ =~= bytes@);
    array
}

fn path_or_default(path: Option<String>, default: &str) -> (result: String)
    ensures
        result@ == path_or(path, default@),
{
    match path {
        Some(path) => path,
        None => default.to_owned(),
    }
}

impl ServerConfig {
    /// Reads the configuration from the environment.
    pub fn from_env(environment: Environment) -> (result: Result<ServerConfig, ConfigError>)
        ensures
            match (result, secret_in(environment.credential, environment.server_secret)) {
                (Ok(config), Ok(secret)) => {
                    &&& config.server_secret@ == secret
                    &&& config.identity_path@ == path_or(environment.identity_path, DEFAULT_IDENTITY_PATH@)
                    &&& config.vault_path@ == path_or(environment.vault_path, DEFAULT_VAULT_PATH@)
                    &&& config.tokens_path@ == path_or(environment.tokens_path, DEFAULT_TOKENS_PATH@)
                    &&& config.webhook_url == environment.webhook_url
                    &&& config.webhook_secret is None
                },
                (Err(error), Err(expected)) => error == expected,
                _ => false,
            },
            result matches Ok(config) ==> {
                &&& environment.identity_path matches Some(path) ==> config.identity_path@ == path@
                &&& environment.identity_path is None ==> config.identity_path@ == ".glyph_identity"@
                &&& environment.vault_path matches Some(path) ==> config.vault_path@ == path@
                &&& environment.vault_path is None ==> config.vault_path@ == "vault.redb"@
                &&& environment.tokens_path matches Some(path) ==> config.tokens_path@ == path@
                &&& environment.tokens_path is None ==> config.tokens_path@ == "tokens.redb"@
            },
    {
        let secret = match read_secret(environment.credential, environment.server_secret) {
            Ok(bytes) => bytes,
            Err(error) => return Err(error),
        };
        if secret.len() != SECRET_LEN {
            return Err(ConfigError::SecretLength);
        }
        Ok(
            ServerConfig {
                identity_path: path_or_default(environment.identity_path, DEFAULT_IDENTITY_PATH),
                vault_path: path_or_default(environment.vault_path, DEFAULT_VAULT_PATH),
                tokens_path: path_or_default(environment.tokens_path, DEFAULT_TOKENS_PATH),
                webhook_url: environment.webhook_url,
                webhook_secret: None,
                server_secret: to_array(&secret),
            },
        )
    }
}

// ---------------------------------------------------------------------------
// Logging
// ---------------------------------------------------------------------------

/// Whether log lines are to be JSON: the setting is `1`, or `true` in any case.
pub fn use_json_logs(setting: &Option<String>) -> (json: bool)
    ensures
        json == (*setting matches Some(value) && (value@ == "1"@ || same_ignoring_case(value@, "true"@))),
{
    match setting {
        Some(value) => *value == "1".to_owned() || equal_ignoring_case(value.as_str(), "true"),
        None => false,
    }
}

// ---------------------------------------------------------------------------
// Laws
// ---------------------------------------------------------------------------

/// White space around a secret in hexadecimal makes no difference.
pub proof fn law_white_space_around_a_secret_is_ignored(before: Seq<char>, text: Seq<char>, behind: Seq<char>)
    requires
        forall|i: int| 0 <= i < before.len() ==> is_white_space(#[trigger] before[i]),
        forall|i: int| 0 <= i < behind.len() ==> is_white_space(#[trigger] behind[i]),
    ensures
        secret_of_text(before + text + behind) == secret_of_text(text),
{
    lemma_trim(before, text, behind);
}

proof fn lemma_trim(before: Seq<char>, text: Seq<char>, behind: Seq<char>)
    requires
        forall|i: int| 0 <= i < before.len() ==> is_white_space(#[trigger] before[i]),
        forall|i: int| 0 <= i < behind.len() ==> is_white_space(#[trigger] behind[i]),
    ensures
        trimmed(before + text + behind) == trimmed(text),
    decreases before.len() + text.len() + behind.len(),
{
    let all = before + text + behind;
    if before.len() > 0 {
        assert(all[0] == before[0]);
        assert(all.skip(1) =~= before.skip(1) + text + behind);
        lemma_trim(before.skip(1), text, behind);
    } else if behind.len() > 0 {
        assert(all.last() == behind.last());
        if text.len() == 0 {
            assert(all =~= behind);
            assert(is_white_space(behind[0]));
            assert(all.skip(1) =~= before + text + behind.skip(1));
            lemma_trim(before, text, behind.skip(1));
        } else if is_white_space(text[0]) {
            assert(all[0] == text[0]);
            assert(all.skip(1) =~= before + text.skip(1) + behind);
            lemma_trim(before, text.skip(1), behind);
        } else {
            assert(all[0] == text[0]);
            assert(is_white_space(behind[behind.len() - 1]));
            assert(all.drop_last() =~= before + text + behind.drop_last());
            lemma_trim(before, text, behind.drop_last());
        }
    } else {
        assert(all =~= text);
    }
}

/// A credential wins over the variable: while there is one, the variable is not
/// looked at.
pub proof fn law_credential_wins(raw: Vec<u8>, a: Option<String>, b: Option<String>)
    ensures
        secret_in(CredentialSource::File(raw), a) == secret_in(CredentialSource::File(raw), b),
{
}

/// Every secret can be configured in hexadecimal: the digits that are written for
/// 32 bytes are read as those bytes, as a variable and as a credential.
pub proof fn law_hex_secret_is_read_back(secret: Seq<u8>, text: String, raw: Vec<u8>)
    requires
        secret.len() == SECRET_LEN,
        text@ == crate::crypto::hex_text(secret),
        raw@ == encode_utf8(text@),
    ensures
        secret_in(CredentialSource::NoDirectory, Some(text)) == Ok::<Seq<u8>, ConfigError>(secret),
        secret_in(CredentialSource::NoFile, Some(text)) == Ok::<Seq<u8>, ConfigError>(secret),
        secret_in(CredentialSource::File(raw), None) == Ok::<Seq<u8>, ConfigError>(secret),
{
    let digits = crate::crypto::hex_text(secret);
    crate::crypto::law_hex_round_trip(secret);
    let bytes = crate::crypto::ascii(digits);
    assert(is_hex(bytes));
    assert forall|i: int| 0 <= i < digits.len() implies 0x30 <= #[trigger] digits[i] as int <= 0x66 by {
        let b = secret[i / 2];
        assert(b as int / 16 < 16 && b as int % 16 < 16);
    }
    assert(!is_white_space(digits[0]) && !is_white_space(digits.last()));
    assert(vstd::utf8::is_ascii_chars(digits));
    vstd::utf8::is_ascii_chars_encode_utf8(digits);
    assert(encode_utf8(digits) =~= bytes);
    vstd::utf8::encode_utf8_valid_utf8(digits);
    vstd::utf8::encode_utf8_decode_utf8(digits);
}

/// Whether `part` is what is left of `text` without its first `i` characters and
/// those from `j` on, and all of these are white space.
pub open spec fn is_cut_out(part: Seq<char>, text: Seq<char>, i: int, j: int) -> bool {
    &&& 0 <= i <= j <= text.len()
    &&& part == text.subrange(i, j)
    &&& forall|k: int| 0 <= k < i ==> is_white_space(#[trigger] text[k])
    &&& forall|k: int| j <= k < text.len() ==> is_white_space(#[trigger] text[k])
}

/// Trimming takes white space and nothing else off the ends of a text, and all of
/// it. Spaces, tabs and line ends are white space; what ASCII prints is not.
pub proof fn law_trim(text: Seq<char>, c: char)
    ensures
        exists|i: int, j: int| #[trigger] is_cut_out(trimmed(text), text, i, j),
        trimmed(text).len() > 0 ==> !is_white_space(trimmed(text)[0]) && !is_white_space(trimmed(text).last()),
        c == ' ' || c == '\t' || c == '\n' || c == '\r' ==> is_white_space(c),
        '!' <= c <= '~' ==> !is_white_space(c),
    decreases text.len(),
{
    if text.len() == 0 {
        assert(text.subrange(0, 0) =~= text);
        assert(is_cut_out(trimmed(text), text, 0, 0));
    } else if is_white_space(text[0]) {
        let rest = text.skip(1);
        law_trim(rest, c);
        let (i, j) = choose|i: int, j: int| #[trigger] is_cut_out(trimmed(rest), rest, i, j);
        assert(rest.subrange(i, j) =~= text.subrange(i + 1, j + 1));
        assert forall|k: int| 0 <= k < i + 1 implies is_white_space(#[trigger] text[k]) by {
            if k > 0 {
                assert(rest[k - 1] == text[k]);
            }
        }
        assert forall|k: int| j + 1 <= k < text.len() implies is_white_space(#[trigger] text[k]) by {
            assert(rest[k - 1] == text[k]);
        }
        assert(is_cut_out(trimmed(text), text, i + 1, j + 1));
    } else if is_white_space(text.last()) {
        let rest = text.drop_last();
        law_trim(rest, c);
        let (i, j) = choose|i: int, j: int| #[trigger] is_cut_out(trimmed(rest), rest, i, j);
        assert(rest.subrange(i, j) =~= text.subrange(i, j));
        assert forall|k: int| 0 <= k < i implies is_white_space(#[trigger] text[k]) by {
            assert(rest[k] == text[k]);
        }
        assert forall|k: int| j <= k < text.len() implies is_white_space(#[trigger] text[k]) by {
            if k < rest.len() {
                assert(rest[k] == text[k]);
            }
        }
        assert(is_cut_out(trimmed(text), text, i, j));
    } else {
        assert(text.subrange(0, text.len() as int) =~= text);
        assert(is_cut_out(trimmed(text), text, 0, text.len() as int));
    }
}

/// What a secret in hexadecimal is read as, or why it is not used: the digits that
/// are left without white space around them have to be 64.
pub open spec fn read_as_hex(text: Seq<char>, not_hex: ConfigError) -> Result<Seq<u8>, ConfigError> {
    let digits = encode_utf8(trimmed(text));
    if !is_hex(digits) {
        Err(not_hex)
    } else if digits.len() != 64 {
        Err(ConfigError::SecretLength)
    } else {
        Ok(hex_value(digits))
    }
}

/// A credential of 32 bytes is the secret, whatever the bytes are; any other has to
/// be 64 hexadecimal digits. Without a credential the variable has to be, and
/// without either there is no secret.
pub proof fn law_where_the_secret_is(
    credential: CredentialSource,
    variable: Option<String>,
)
    ensures
        credential matches CredentialSource::File(raw) ==> secret_in(credential, variable) == if raw@.len() == 32 {
            Ok::<Seq<u8>, ConfigError>(raw@)
        } else if !valid_utf8(raw@) {
            Err::<Seq<u8>, ConfigError>(ConfigError::CredentialNotUtf8)
        } else {
            read_as_hex(decode_utf8(raw@), ConfigError::CredentialNotHex)
        },
        !(credential is File) ==> (variable matches Some(text) ==> secret_in(credential, variable) == read_as_hex(
            text@,
            ConfigError::SecretNotHex,
        )),
        credential is NoDirectory && variable is None ==> secret_in(credential, variable) == Err::<
            Seq<u8>,
            ConfigError,
        >(ConfigError::SecretMissing),
        credential is NoFile && variable is None ==> secret_in(credential, variable) == Err::<Seq<u8>, ConfigError>(
            ConfigError::SecretMissingNoCredential,
        ),
{
}

/// Whether two characters are the same letter in upper and in lower case.
pub open spec fn are_cases_of_a_letter(upper: char, lower: char) -> bool {
    'A' <= upper <= 'Z' && 'a' <= lower <= 'z' && lower as int - upper as int == 'a' as int - 'A' as int
}

/// Two texts are the same but for case exactly if at each place they have the same
/// character, or an ASCII letter once in upper and once in lower case.
pub proof fn law_same_ignoring_case(a: Seq<char>, b: Seq<char>)
    ensures
        same_ignoring_case(a, b) <==> a.len() == b.len() && forall|i: int|
            0 <= i < a.len() ==> {
                ||| #[trigger] a[i] == b[i]
                ||| are_cases_of_a_letter(a[i], b[i])
                ||| are_cases_of_a_letter(b[i], a[i])
            },
{
    let lower_a = a.map_values(|c: char| lower_ascii(c));
    let lower_b = b.map_values(|c: char| lower_ascii(c));
    assert(lower_a.len() == a.len() && lower_b.len() == b.len());
    if a.len() == b.len() {
        assert forall|i: int| 0 <= i < a.len() implies (lower_a[i] == lower_b[i] <==> {
            ||| #[trigger] a[i] == b[i]
            ||| are_cases_of_a_letter(a[i], b[i])
            ||| are_cases_of_a_letter(b[i], a[i])
        }) by {
            assert(lower_a[i] == lower_ascii(a[i]));
            assert(lower_b[i] == lower_ascii(b[i]));
        }
        if forall|i: int|
            0 <= i < a.len() ==> {
                ||| #[trigger] a[i] == b[i]
                ||| are_cases_of_a_letter(a[i], b[i])
                ||| are_cases_of_a_letter(b[i], a[i])
            } {
            assert forall|i: int| 0 <= i < a.len() implies lower_a[i] == lower_b[i] by {
                assert(a[i] == a[i]);
            }
            assert(lower_a =~= lower_b);
        }
    }
}

/// What the operator is told, and where things are kept unless configured.
pub proof fn law_texts()
    ensures
        ConfigError::SecretMissing.text() == "GLYPH_SERVER_SECRET must be set"@,
        ConfigError::SecretMissingNoCredential.text()
            == "GLYPH_SERVER_SECRET must be set (no systemd credentials found)"@,
        ConfigError::SecretNotHex.text() == "GLYPH_SERVER_SECRET must be 64 hex characters"@,
        ConfigError::CredentialNotUtf8.text()
            == "Systemd credential is not valid UTF-8 and not 32 bytes raw binary"@,
        ConfigError::CredentialNotHex.text()
            == "Systemd credential must be either 32 raw bytes or 64 hex characters"@,
        ConfigError::SecretLength.text() == "Server secret must be 32 bytes"@,
        DEFAULT_IDENTITY_PATH@ == ".glyph_identity"@,
        DEFAULT_VAULT_PATH@ == "vault.redb"@,
        DEFAULT_TOKENS_PATH@ == "tokens.redb"@,
        SECRET_LEN == 32,
{
}

} // verus!
