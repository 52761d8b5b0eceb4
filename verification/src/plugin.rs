//! Choosing the plugin to load and describing it once loaded: the node's
//! configuration, its errors, the checks on the plugin ID, the plugin's name,
//! the listing of its parameters, and how the plugin's log messages are routed.
use clack_host::host::HostInfo;
use std::path::PathBuf;
use vstd::prelude::*;
use vstd::utf8::{decode_utf8, encode_utf8, valid_utf8};

verus! {

#[verifier::external_type_specification]
#[verifier::external_body]
pub struct ExPathBuf(PathBuf);

/// `Clone` of std's `PathBuf`, which copies the path into a new buffer.
/// Nothing is stated of the copy: the type is opaque here, and nothing in the
/// library reads a path.
pub assume_specification[ <PathBuf as Clone>::clone ](path: &PathBuf) -> PathBuf;

#[verifier::external_type_specification]
#[verifier::external_body]
pub struct ExPluginEntryError(clack_host::entry::PluginEntryError);

#[verifier::external_type_specification]
#[verifier::external_body]
pub struct ExPluginInstanceError(clack_host::plugin::PluginInstanceError);

#[verifier::external_type_specification]
#[verifier::external_body]
pub struct ExHostInfo(HostInfo);

/// A plugin ID that holds a NUL byte, which a C string cannot carry: the
/// position of the first NUL and the ID's bytes.
#[derive(Debug, Clone, PartialEq, Eq)]
pub struct IdNulError {
    pub nul_position: usize,
    pub bytes: Vec<u8>,
}

/// Errors in setting up the plugin.
#[derive(Debug)]
pub enum ClapNodeError {
    /// The plugin bundle could not be loaded.
    LoadError(clack_host::entry::PluginEntryError),
    /// The bundle has no plugin factory.
    MissingPluginFactory,
    /// No plugin in the bundle has the configured ID.
    IDNotFound,
    /// The plugin instance could not be created or started.
    PluginInstanceError(clack_host::plugin::PluginInstanceError),
    /// The configured ID is no valid C string.
    ParseIDFailed(IdNulError),
    /// The node's state does not hold the plugin instance.
    PluginInstanceCustomDataMissing,
}

/// Configuration for a CLAP plugin node: the bundle's path, the plugin's ID,
/// and the node's numbers of input and output channels.
#[derive(Debug, Clone, Default, PartialEq)]
pub struct ClapPluginNodeConfig {
    /// The path of the CLAP plugin bundle.
    pub path: PathBuf,
    /// The ID of the CLAP plugin in the bundle.
    pub id: String,
    /// The number of audio input channels of the node.
    pub num_input_channels: u32,
    /// The number of audio output channels of the node.
    pub num_output_channels: u32,
}

/// The plugin that was chosen: its ID as C string bytes (without the final
/// NUL) and its place among the factory's descriptors.
#[derive(Debug, Clone, PartialEq, Eq)]
pub struct PluginSelection {
    pub id: Vec<u8>,
    pub descriptor_index: usize,
}

/// The byte sequence holds no NUL.
pub open spec fn no_nul(bytes: Seq<u8>) -> bool {
    forall|i: int| 0 <= i < bytes.len() ==> bytes[i] != 0
}

/// `pos` is the position of the first NUL in `bytes`.
pub open spec fn first_nul_at(bytes: Seq<u8>, pos: int) -> bool {
    &&& 0 <= pos < bytes.len()
    &&& bytes[pos] == 0
    &&& no_nul(bytes.take(pos))
}

/// Descriptor `i` carries an ID equal to `id`.
pub open spec fn descriptor_has_id(ids: Seq<Option<Vec<u8>>>, i: int, id: Seq<u8>) -> bool {
    ids[i] matches Some(d) && d@ == id
}

/// The ID of a plugin as the bytes of a C string: the UTF-8 bytes of `id`,
/// unless one of them is NUL, which gives `ParseIDFailed` with the position
/// of the first NUL.
pub fn plugin_id_bytes(id: &str) -> (r: Result<Vec<u8>, ClapNodeError>)
    ensures
        no_nul(encode_utf8(id@)) <==> r is Ok,
        r matches Ok(bytes) ==> bytes@ == encode_utf8(id@),
        r matches Err(e) ==> e matches ClapNodeError::ParseIDFailed(nul) && first_nul_at(
            encode_utf8(id@),
            nul.nul_position as int,
        ) && nul.bytes@ == encode_utf8(id@),
{
    let source = id.as_bytes();
    let mut bytes: Vec<u8> = Vec::new();
    let mut i: usize = 0;
    while i < source.len()
        invariant
            source@ == encode_utf8(id@),
            i <= source@.len(),
            bytes@ == source@.take(i as int),
            no_nul(source@.take(i as int)),
        decreases source@.len() - i,
    {
        let byte = source[i];
        if byte == 0 {
            let mut all: Vec<u8> = bytes;
            let mut k: usize = i;
            while k < source.len()
                invariant
                    source@ == encode_utf8(id@),
                    i <= k <= source@.len(),
                    all@ == source@.take(k as int),
                decreases source@.len() - k,
            {
                all.push(source[k]);
                k = k + 1;
                assert(all@ =~= source@.take(k as int));
            }
            assert(source@.take(source@.len() as int) =~= source@);
            return Err(ClapNodeError::ParseIDFailed(IdNulError { nul_position: i, bytes: all }));
        }
        bytes.push(byte);
        i = i + 1;
        assert(bytes@ =~= source@.take(i as int));
        assert forall|k: int| 0 <= k < i implies #[trigger] source@.take(i as int)[k] != 0 by {
            if k < i - 1 {
                assert(source@.take(i as int)[k] == source@.take(i - 1)[k]);
            }
        }
    }
    assert(source@.take(source@.len() as int) =~= source@);
    Ok(bytes)
}

/// Whether two byte strings are equal.
fn bytes_equal(a: &Vec<u8>, b: &Vec<u8>) -> (r: bool)
    ensures
        r == (a@ == b@),
{
    if a.len() != b.len() {
        return false;
    }
    let mut i: usize = 0;
    while i < a.len()
        invariant
            a@.len() == b@.len(),
            i <= a@.len(),
            forall|k: int| 0 <= k < i ==> a@[k] == b@[k],
        decreases a@.len() - i,
    {
        if a[i] != b[i] {
            return false;
        }
        i = i + 1;
    }
    assert(a@ =~= b@);
    true
}

/// Finds the first of the factory's descriptors whose ID is `id`; a
/// descriptor without an ID matches nothing. `IDNotFound` when none matches.
pub fn find_plugin_descriptor(descriptor_ids: &Vec<Option<Vec<u8>>>, id: &Vec<u8>) -> (r: Result<
    usize,
    ClapNodeError,
>)
    ensures
        r matches Ok(i) ==> 0 <= i < descriptor_ids@.len() && descriptor_has_id(
            descriptor_ids@,
            i as int,
            id@,
        ) && forall|k: int| 0 <= k < i ==> !descriptor_has_id(descriptor_ids@, k, id@),
        r is Err ==> r matches Err(ClapNodeError::IDNotFound),
        r is Err <==> forall|k: int|
            0 <= k < descriptor_ids@.len() ==> !descriptor_has_id(descriptor_ids@, k, id@),
{
    let mut i: usize = 0;
    while i < descriptor_ids.len()
        invariant
            i <= descriptor_ids@.len(),
            forall|k: int| 0 <= k < i ==> !descriptor_has_id(descriptor_ids@, k, id@),
        decreases descriptor_ids@.len() - i,
    {
        match &descriptor_ids[i] {
            Some(candidate) => {
                if bytes_equal(candidate, id) {
                    assert(descriptor_has_id(descriptor_ids@, i as int, id@));
                    return Ok(i);
                }
            },
            None => {},
        }
        i = i + 1;
    }
    Err(ClapNodeError::IDNotFound)
}

/// Chooses the plugin to load from the bundle's factory, given the IDs of the
/// factory's descriptors (`None` when the bundle has no factory): a missing
/// factory comes first, then an ID that is no C string, then an ID that no
/// descriptor carries.
pub fn select_plugin(
    config: &ClapPluginNodeConfig,
    descriptor_ids: Option<&Vec<Option<Vec<u8>>>>,
) -> (r: Result<PluginSelection, ClapNodeError>)
    ensures
        descriptor_ids is None ==> r matches Err(ClapNodeError::MissingPluginFactory),
        descriptor_ids is Some && !no_nul(encode_utf8(config.id@)) ==> (r matches Err(
            ClapNodeError::ParseIDFailed(nul),
        ) && first_nul_at(encode_utf8(config.id@), nul.nul_position as int) && nul.bytes@
            == encode_utf8(config.id@)),
        descriptor_ids matches Some(ids) ==> (no_nul(encode_utf8(config.id@)) && forall|k: int|
            0 <= k < ids@.len() ==> !descriptor_has_id(ids@, k, encode_utf8(config.id@))) ==> r
            matches Err(ClapNodeError::IDNotFound),
        descriptor_ids matches Some(ids) ==> (no_nul(encode_utf8(config.id@)) && exists|k: int|
            0 <= k < ids@.len() && descriptor_has_id(ids@, k, encode_utf8(config.id@))) ==> r
            is Ok,
        r matches Ok(sel) ==> (descriptor_ids matches Some(ids) && sel.id@ == encode_utf8(
            config.id@,
        ) && no_nul(sel.id@) && 0 <= sel.descriptor_index < ids@.len() && descriptor_has_id(
            ids@,
            sel.descriptor_index as int,
            sel.id@,
        ) && forall|k: int|
            0 <= k < sel.descriptor_index ==> !descriptor_has_id(ids@, k, sel.id@)),
{
    match descriptor_ids {
        None => Err(ClapNodeError::MissingPluginFactory),
        Some(ids) => {
            let id = match plugin_id_bytes(config.id.as_str()) {
                Ok(id) => id,
                Err(e) => return Err(e),
            };
            match find_plugin_descriptor(ids, &id) {
                Ok(descriptor_index) => Ok(PluginSelection { id, descriptor_index }),
                Err(e) => Err(e),
            }
        },
    }
}

/// `"Unknown"`: the name shown for what has none.
pub open spec fn unknown_name() -> Seq<char> {
    seq!['U', 'n', 'k', 'n', 'o', 'w', 'n']
}

/// A new `"Unknown"`.
fn unknown() -> (r: String)
    ensures
        r@ == unknown_name(),
{
    proof {
        reveal_strlit("Unknown");
    }
    String::from_str("Unknown")
}

/// The name under which the plugin is reported: its descriptor's name, or
/// `"Unknown"` when the plugin has no descriptor or its descriptor no name.
pub fn plugin_display_name(descriptor_name: Option<String>) -> (r: String)
    ensures
        match descriptor_name {
            Some(name) => r@ == name@,
            None => r@ == unknown_name(),
        },
{
    match descriptor_name {
        Some(name) => name,
        None => unknown(),
    }
}

/// `String::from_utf8`: the bytes as a string when they are valid UTF-8.
#[verifier::external_body]
fn string_from_utf8(bytes: &[u8]) -> (r: Option<String>)
    ensures
        r is Some <==> valid_utf8(bytes@),
        r matches Some(s) ==> s@ == decode_utf8(bytes@),
{
    String::from_utf8(bytes.to_vec()).ok()
}

/// What `format!("{:?}", s)` gives for a string slice `s` with these
/// characters: the string quoted, with its characters escaped as `Debug`
/// escapes them.
pub uninterp spec fn debug_quoted(chars: Seq<char>) -> Seq<char>;

/// Formats a string slice with `Debug` (`format!("{:?}", s)`).
#[verifier::external_body]
fn debug_string(s: &str) -> (r: String)
    ensures
        r@ == debug_quoted(s@),
{
    format!("{:?}", s)
}

/// The name of a parameter as the plugin wrote it: the bytes decoded as
/// UTF-8, or `"Unknown"` when they are not UTF-8.
pub open spec fn param_name(name_bytes: Seq<u8>) -> Seq<char> {
    if valid_utf8(name_bytes) {
        decode_utf8(name_bytes)
    } else {
        unknown_name()
    }
}

/// Decodes a parameter's name.
pub fn param_display_name(name_bytes: &[u8]) -> (r: String)
    ensures
        r@ == param_name(name_bytes@),
{
    match string_from_utf8(name_bytes) {
        Some(name) => name,
        None => unknown(),
    }
}

/// The decimal digit `d`.
pub open spec fn digit_char(d: nat) -> char {
    if d == 0 {
        '0'
    } else if d == 1 {
        '1'
    } else if d == 2 {
        '2'
    } else if d == 3 {
        '3'
    } else if d == 4 {
        '4'
    } else if d == 5 {
        '5'
    } else if d == 6 {
        '6'
    } else if d == 7 {
        '7'
    } else if d == 8 {
        '8'
    } else {
        '9'
    }
}

/// The decimal numeral of `n`, without sign or leading zeros.
pub open spec fn decimal(n: nat) -> Seq<char>
    decreases n,
{
    if n < 10 {
        seq![digit_char(n)]
    } else {
        decimal(n / 10).push(digit_char(n % 10))
    }
}

/// The value of a digit character: its code less that of `'0'`.
pub open spec fn digit_value(c: char) -> int {
    (c as int) - ('0' as int)
}

/// The character is one of the ten decimal digits `'0'` to `'9'`.
pub open spec fn is_digit(c: char) -> bool {
    0 <= digit_value(c) <= 9
}

/// The number that a string of decimal digits stands for, read from the most
/// significant digit on.
pub open spec fn numeral_value(s: Seq<char>) -> int
    decreases s.len(),
{
    if s.len() == 0 {
        0
    } else {
        numeral_value(s.drop_last()) * 10 + digit_value(s.last())
    }
}

/// A single digit reads as its own value.
proof fn lemma_numeral_single(s: Seq<char>)
    requires
        s.len() == 1,
    ensures
        numeral_value(s) == digit_value(s[0]),
{
    assert(s.drop_last() =~= Seq::<char>::empty());
    assert(numeral_value(s.drop_last()) == 0);
}

/// `s` is the standard base-10 numeral of `n`: digits only, at least one,
/// no leading zero unless `n` is 0, and reading back as `n`.
pub open spec fn is_numeral_of(s: Seq<char>, n: int) -> bool {
    &&& s.len() > 0
    &&& forall|i: int| 0 <= i < s.len() ==> is_digit(#[trigger] s[i])
    &&& (s[0] == '0' ==> s.len() == 1)
    &&& numeral_value(s) == n
}

/// A number's decimal numeral is its standard base-10 numeral: each character
/// is a digit whose code is that of `'0'` plus its value, the first is no
/// zero unless the number is 0, and read back digit by digit it gives the
/// number.
pub proof fn lemma_decimal_is_numeral(n: nat)
    ensures
        is_numeral_of(decimal(n), n as int),
    decreases n,
{
    if n < 10 {
        let s = decimal(n);
        assert(digit_value(digit_char(n)) == n);
        assert(s.len() == 1);
        assert(is_digit(s[0]));
        lemma_numeral_single(s);
    } else {
        lemma_decimal_is_numeral(n / 10);
        let d = n % 10;
        assert(digit_value(digit_char(d)) == d);
        let s = decimal(n);
        assert(s == decimal(n / 10).push(digit_char(d)));
        assert(s.drop_last() =~= decimal(n / 10));
        assert(s[0] == decimal(n / 10)[0]);
        assert(forall|i: int| 0 <= i < s.len() ==> is_digit(#[trigger] s[i])) by {
            assert forall|i: int| 0 <= i < s.len() implies is_digit(#[trigger] s[i]) by {
                if i < s.len() - 1 {
                    assert(s[i] == decimal(n / 10)[i]);
                }
            }
        }
        if decimal(n / 10)[0] == '0' {
            lemma_numeral_single(decimal(n / 10));
        }
        assert(numeral_value(s) == numeral_value(decimal(n / 10)) * 10 + d);
    }
}

/// The one-character string of digit `d`.
fn digit_str(d: u32) -> (r: &'static str)
    requires
        d < 10,
    ensures
        r@ == seq![digit_char(d as nat)],
        r@.len() == 1 && digit_value(r@[0]) == d,
{
    if d == 0 {
        proof { reveal_strlit("0"); }
        "0"
    } else if d == 1 {
        proof { reveal_strlit("1"); }
        "1"
    } else if d == 2 {
        proof { reveal_strlit("2"); }
        "2"
    } else if d == 3 {
        proof { reveal_strlit("3"); }
        "3"
    } else if d == 4 {
        proof { reveal_strlit("4"); }
        "4"
    } else if d == 5 {
        proof { reveal_strlit("5"); }
        "5"
    } else if d == 6 {
        proof { reveal_strlit("6"); }
        "6"
    } else if d == 7 {
        proof { reveal_strlit("7"); }
        "7"
    } else if d == 8 {
        proof { reveal_strlit("8"); }
        "8"
    } else {
        proof { reveal_strlit("9"); }
        "9"
    }
}

/// Appends the decimal numeral of `n`, as `Display` writes a `u32`.
fn push_decimal(out: &mut String, n: u32)
    ensures
        final(out)@ == old(out)@ + decimal(n as nat),
        final(out)@.subrange(0, old(out)@.len() as int) == old(out)@,
        is_numeral_of(final(out)@.subrange(old(out)@.len() as int, final(out)@.len() as int), n as int),
    decreases n,
{
    if n >= 10 {
        push_decimal(out, n / 10);
    }
    out.append(digit_str(n % 10));
    proof {
        if n >= 10 {
            assert(decimal(n as nat) == decimal((n / 10) as nat).push(digit_char((n % 10) as nat)));
        }
    }
    assert(final(out)@ =~= old(out)@ + decimal(n as nat));
    proof {
        lemma_decimal_is_numeral(n as nat);
        assert(final(out)@.subrange(0, old(out)@.len() as int) =~= old(out)@);
        assert(final(out)@.subrange(old(out)@.len() as int, final(out)@.len() as int) =~= decimal(
            n as nat,
        ));
    }
}

/// The line that lists one parameter: `- <id>: <name, Debug-quoted>` and a
/// line break.
pub open spec fn param_line(id: u32, name: Seq<char>) -> Seq<char> {
    seq!['-', ' '] + decimal(id as nat) + seq![':', ' '] + debug_quoted(name) + seq!['\n']
}

/// Each listing line names its parameter by the standard base-10 numeral of
/// the parameter's ID: the line is `- `, that numeral, `: `, the quoted name
/// and a line break.
pub proof fn lemma_param_line_lists_the_id(id: u32, name: Seq<char>)
    ensures
        exists|digits: Seq<char>|
            #[trigger] is_numeral_of(digits, id as int) && param_line(id, name) == seq!['-', ' ']
                + digits + seq![':', ' '] + debug_quoted(name) + seq!['\n'],
{
    lemma_decimal_is_numeral(id as nat);
    assert(is_numeral_of(decimal(id as nat), id as int));
}

/// The lines of the parameters whose information the plugin gave, in order;
/// `None` stands for an index the plugin gave nothing for.
pub open spec fn param_lines(infos: Seq<Option<(u32, Vec<u8>)>>) -> Seq<char>
    decreases infos.len(),
{
    if infos.len() == 0 {
        Seq::empty()
    } else {
        param_lines(infos.drop_last()) + match infos.last() {
            Some((id, name)) => param_line(id, param_name(name@)),
            None => Seq::empty(),
        }
    }
}

/// `"[Parameters]"` and a line break: the head of the listing.
pub open spec fn parameters_heading() -> Seq<char> {
    seq!['[', 'P', 'a', 'r', 'a', 'm', 'e', 't', 'e', 'r', 's', ']', '\n']
}

/// The listing of a plugin's parameters that is logged when it is loaded:
/// a heading, then one line per parameter that the plugin described, with
/// its ID and name.
pub fn parameters_log(infos: &Vec<Option<(u32, Vec<u8>)>>) -> (r: String)
    ensures
        r@ == parameters_heading() + param_lines(infos@),
{
    proof {
        reveal_strlit("[Parameters]\n");
    }
    let mut log = String::from_str("[Parameters]\n");
    assert(log@ =~= parameters_heading());
    let mut i: usize = 0;
    while i < infos.len()
        invariant
            i <= infos@.len(),
            log@ == parameters_heading() + param_lines(infos@.take(i as int)),
        decreases infos@.len() - i,
    {
        let ghost before = log@;
        match &infos[i] {
            Some(info) => {
                let id = info.0;
                let name = param_display_name(info.1.as_slice());
                proof {
                    reveal_strlit("- ");
                    reveal_strlit(": ");
                    reveal_strlit("\n");
                }
                log.append("- ");
                push_decimal(&mut log, id);
                log.append(": ");
                let quoted = debug_string(name.as_str());
                log.append(quoted.as_str());
                log.append("\n");
            },
            None => {},
        }
        proof {
            assert(infos@.take(i + 1).drop_last() =~= infos@.take(i as int));
            assert(infos@.take(i + 1).last() == infos@[i as int]);
        }
        i = i + 1;
        assert(log@ =~= parameters_heading() + param_lines(infos@.take(i as int)));
    }
    assert(infos@.take(infos@.len() as int) =~= infos@);
    log
}

/// The severity of a message that the plugin logs.
#[derive(Debug, Clone, Copy, PartialEq, Eq, Structural)]
pub enum LogSeverity {
    Debug,
    Info,
    Warning,
    Error,
    Fatal,
    HostMisbehaving,
    PluginMisbehaving,
}

/// The level at which the host logs a message.
#[derive(Debug, Clone, Copy, PartialEq, Eq, Structural)]
pub enum LogLevel {
    Debug,
    Info,
    Warn,
    Error,
}

/// `"[FATAL] "`.
pub open spec fn fatal_tag() -> Seq<char> {
    seq!['[', 'F', 'A', 'T', 'A', 'L', ']', ' ']
}

/// `"[HOST MISBEHAVING] "`.
pub open spec fn host_misbehaving_tag() -> Seq<char> {
    seq![
        '[',
        'H',
        'O',
        'S',
        'T',
        ' ',
        'M',
        'I',
        'S',
        'B',
        'E',
        'H',
        'A',
        'V',
        'I',
        'N',
        'G',
        ']',
        ' ',
    ]
}

/// `"[PLUGIN MISBEHAVING] "`.
pub open spec fn plugin_misbehaving_tag() -> Seq<char> {
    seq![
        '[',
        'P',
        'L',
        'U',
        'G',
        'I',
        'N',
        ' ',
        'M',
        'I',
        'S',
        'B',
        'E',
        'H',
        'A',
        'V',
        'I',
        'N',
        'G',
        ']',
        ' ',
    ]
}

/// The level and tag under which a plugin's message of a severity is logged.
pub open spec fn log_route(severity: LogSeverity) -> (LogLevel, Seq<char>) {
    match severity {
        LogSeverity::Debug => (LogLevel::Debug, Seq::empty()),
        LogSeverity::Info => (LogLevel::Info, Seq::empty()),
        LogSeverity::Warning => (LogLevel::Warn, Seq::empty()),
        LogSeverity::Error => (LogLevel::Error, Seq::empty()),
        LogSeverity::Fatal => (LogLevel::Error, fatal_tag()),
        LogSeverity::HostMisbehaving => (LogLevel::Warn, host_misbehaving_tag()),
        LogSeverity::PluginMisbehaving => (LogLevel::Warn, plugin_misbehaving_tag()),
    }
}

/// The record the host logs for a plugin's message: the level for its
/// severity, and the message behind the severity's tag.
pub fn plugin_log_record(severity: LogSeverity, message: &str) -> (r: (LogLevel, String))
    ensures
        r.0 == log_route(severity).0,
        r.1@ == log_route(severity).1 + message@,
{
    let (level, tag): (LogLevel, &str) = match severity {
        LogSeverity::Debug => {
            proof { reveal_strlit(""); }
            (LogLevel::Debug, "")
        },
        LogSeverity::Info => {
            proof { reveal_strlit(""); }
            (LogLevel::Info, "")
        },
        LogSeverity::Warning => {
            proof { reveal_strlit(""); }
            (LogLevel::Warn, "")
        },
        LogSeverity::Error => {
            proof { reveal_strlit(""); }
            (LogLevel::Error, "")
        },
        LogSeverity::Fatal => {
            proof { reveal_strlit("[FATAL] "); }
            (LogLevel::Error, "[FATAL] ")
        },
        LogSeverity::HostMisbehaving => {
            proof { reveal_strlit("[HOST MISBEHAVING] "); }
            (LogLevel::Warn, "[HOST MISBEHAVING] ")
        },
        LogSeverity::PluginMisbehaving => {
            proof { reveal_strlit("[PLUGIN MISBEHAVING] "); }
            (LogLevel::Warn, "[PLUGIN MISBEHAVING] ")
        },
    };
    let mut record = String::from_str(tag);
    record.append(message);
    assert(tag@ =~= log_route(severity).1);
    (level, record)
}

/// What `clack_host::host::HostInfo::new` gives for a name, vendor, URL and
/// version with these characters: the description that holds the four as C
/// strings (and hands them back through `name`, `vendor`, `url`, `version`).
pub uninterp spec fn host_description(
    name: Seq<char>,
    vendor: Seq<char>,
    url: Seq<char>,
    version: Seq<char>,
) -> HostInfo;

/// `clack_host::host::HostInfo::new`: the host's description for plugins,
/// from its name, vendor, URL and version. The call fails exactly when one of
/// the four strings holds a NUL byte, as each becomes a C string; otherwise
/// it gives the description of the four strings.
#[verifier::external_body]
fn new_host_info(name: &str, vendor: &str, url: &str, version: &str) -> (r: Option<HostInfo>)
    ensures
        r is Some <==> (no_nul(encode_utf8(name@)) && no_nul(encode_utf8(vendor@))
            && no_nul(encode_utf8(url@)) && no_nul(encode_utf8(version@))),
        r matches Some(info) ==> info == host_description(name@, vendor@, url@, version@),
{
    HostInfo::new(name, vendor, url, version).ok()
}

/// An ASCII string without the NUL character has no NUL byte.
proof fn lemma_ascii_no_nul(chars: Seq<char>)
    requires
        vstd::utf8::is_ascii_chars(chars),
        forall|i: int| 0 <= i < chars.len() ==> chars[i] != '\0',
    ensures
        no_nul(encode_utf8(chars)),
{
    vstd::utf8::is_ascii_chars_encode_utf8(chars);
    assert forall|i: int| 0 <= i < encode_utf8(chars).len() implies encode_utf8(chars)[i] != 0 by {
        assert(chars[i] as u8 == encode_utf8(chars)[i]);
        assert((chars[i] as u32) < 128);
        assert(chars[i] as u32 != 0);
    }
}

/// `"Firewheel Clap Plugin Node Host"`: the host's name.
pub open spec fn host_name() -> Seq<char> {
    "Firewheel Clap Plugin Node Host"@
}

/// `"Firewheel"`: the host's vendor.
pub open spec fn host_vendor() -> Seq<char> {
    "Firewheel"@
}

/// `"https://github.com/IRSMsoso/firewheel_clap_node"`: the host's home page.
pub open spec fn host_url() -> Seq<char> {
    "https://github.com/IRSMsoso/firewheel_clap_node"@
}

/// The description this host gives of itself to plugins: its name, vendor
/// and home page, and `version`, which must hold no NUL byte.
pub fn host_info(version: &str) -> (r: HostInfo)
    requires
        no_nul(encode_utf8(version@)),
    ensures
        r == host_description(host_name(), host_vendor(), host_url(), version@),
{
    let name = "Firewheel Clap Plugin Node Host";
    let vendor = "Firewheel";
    let url = "https://github.com/IRSMsoso/firewheel_clap_node";
    proof {
        reveal_strlit("Firewheel Clap Plugin Node Host");
        reveal_strlit("Firewheel");
        reveal_strlit("https://github.com/IRSMsoso/firewheel_clap_node");
        lemma_ascii_no_nul(name@);
        lemma_ascii_no_nul(vendor@);
        lemma_ascii_no_nul(url@);
    }
    new_host_info(name, vendor, url, version).unwrap()
}

} // verus!
