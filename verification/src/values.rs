//! Values of the configuration format: quoted strings, arrays of strings,
//! integers, booleans, enumerated words, names and paths.
use vstd::prelude::*;
use crate::config::{
    ConfigError, ConfigFault, LogLevel, Signal, StreamSpec, StreamTarget, texts, strings_of,
};
use crate::text::{
    chars_of, contains_char, decimal, eq_str, has_prefix, is_digit, parse_u64_chars,
    parse_unsigned, push_all, push_decimal, push_str, slice_chars, split, split_chars,
    starts_with_str, string_of, trim, trim_chars, copy_chars,
};

verus! {

/// An `InvalidValue` error carrying the given text.
pub fn invalid_value(msg: &Vec<char>) -> (e: ConfigError)
    ensures
        e@ == ConfigFault::InvalidValue(msg@),
{
    ConfigError::InvalidValue(string_of(msg))
}

/// `prefix` followed by `text`.
pub fn joined(prefix: &str, text: &Vec<char>) -> (out: Vec<char>)
    ensures
        out@ == prefix@ + text@,
{
    let mut out: Vec<char> = Vec::new();
    push_str(&mut out, prefix);
    push_all(&mut out, text);
    assert(out@ =~= prefix@ + text@);
    out
}

/// `a`, then `middle`, then `b`.
pub fn joined3(a: &Vec<char>, middle: &str, b: &Vec<char>) -> (out: Vec<char>)
    ensures
        out@ == a@ + middle@ + b@,
{
    let mut out = copy_chars(a);
    push_str(&mut out, middle);
    push_all(&mut out, b);
    out
}

/// A quoted string: `"` at both ends, and no backslash in between.
pub open spec fn spec_parse_string(v: Seq<char>) -> Result<Seq<char>, ConfigFault> {
    if v.len() < 2 || v[0] != '"' || v.last() != '"' {
        Err(ConfigFault::InvalidValue(v))
    } else if v.subrange(1, v.len() - 1).contains('\\') {
        Err(ConfigFault::InvalidValue(v))
    } else {
        Ok(v.subrange(1, v.len() - 1))
    }
}

/// A quoted string value.
pub fn parse_string(v: &Vec<char>) -> (r: Result<Vec<char>, ConfigError>)
    ensures
        spec_parse_string(v@) == crate::config::lift(r),
{
    if v.len() < 2 || v[0] != '"' || v[v.len() - 1] != '"' {
        return Err(invalid_value(v));
    }
    let body = slice_chars(v, 1, v.len() - 1);
    if contains_char(&body, '\\') {
        return Err(invalid_value(v));
    }
    Ok(body)
}

/// Items of an array body: each trimmed item must be a quoted string; the
/// first one that is not decides the error.
pub open spec fn spec_parse_items(items: Seq<Seq<char>>) -> Result<Seq<Seq<char>>, ConfigFault>
    decreases items.len(),
{
    if items.len() == 0 {
        Ok(Seq::empty())
    } else {
        match spec_parse_items(items.drop_last()) {
            Err(e) => Err(e),
            Ok(done) => match spec_parse_string(trim(items.last())) {
                Err(e) => Err(e),
                Ok(s) => Ok(done.push(s)),
            },
        }
    }
}

/// An array of quoted strings between `[` and `]`, separated by commas.
pub open spec fn spec_parse_array(v: Seq<char>) -> Result<Seq<Seq<char>>, ConfigFault> {
    if v.len() < 2 || v[0] != '[' || v.last() != ']' {
        Err(ConfigFault::InvalidValue(v))
    } else {
        let body = trim(v.subrange(1, v.len() - 1));
        if body.len() == 0 {
            Ok(Seq::empty())
        } else {
            spec_parse_items(split(body, ','))
        }
    }
}

/// A parse result for a list of strings, seen as texts.
pub open spec fn lift_texts(r: Result<Vec<String>, ConfigError>) -> Result<
    Seq<Seq<char>>,
    ConfigFault,
> {
    match r {
        Ok(v) => Ok(texts(v@)),
        Err(e) => Err(e@),
    }
}

/// An array of quoted strings.
pub fn parse_array(v: &Vec<char>) -> (r: Result<Vec<String>, ConfigError>)
    ensures
        spec_parse_array(v@) == lift_texts(r),
{
    if v.len() < 2 || v[0] != '[' || v[v.len() - 1] != ']' {
        return Err(invalid_value(v));
    }
    let inner = slice_chars(v, 1, v.len() - 1);
    let body = trim_chars(&inner);
    if body.len() == 0 {
        let empty: Vec<String> = Vec::new();
        assert(texts(empty@) =~= Seq::<Seq<char>>::empty());
        return Ok(empty);
    }
    let items = split_chars(&body, ',');
    let ghost items_v = items@.map_values(|p: Vec<char>| p@);
    let mut out: Vec<Vec<char>> = Vec::new();
    let mut i: usize = 0;
    assert(items_v.take(0) =~= Seq::<Seq<char>>::empty());
    assert(out@.map_values(|p: Vec<char>| p@) =~= Seq::<Seq<char>>::empty());
    while i < items.len()
        invariant
            i <= items.len(),
            items_v == items@.map_values(|p: Vec<char>| p@),
            spec_parse_array(v@) == spec_parse_items(items_v),
            spec_parse_items(items_v.take(i as int)) == Ok::<Seq<Seq<char>>, ConfigFault>(
                out@.map_values(|p: Vec<char>| p@),
            ),
        decreases items.len() - i,
    {
        assert(items_v.take(i + 1).drop_last() =~= items_v.take(i as int));
        let item = trim_chars(&items[i]);
        match parse_string(&item) {
            Err(e) => {
                assert(spec_parse_items(items_v.take(i + 1)) == Err::<Seq<Seq<char>>, ConfigFault>(e@));
                proof {
                    lemma_items_error_sticks(items_v, i as int + 1, e@);
                }
                assert(items_v.take(items_v.len() as int) =~= items_v);
                return Err(e);
            },
            Ok(s) => {
                let ghost before = out@.map_values(|p: Vec<char>| p@);
                out.push(s);
                assert(out@.map_values(|p: Vec<char>| p@) =~= before.push(s@));
            },
        }
        i = i + 1;
    }
    assert(items_v.take(items.len() as int) =~= items_v);
    Ok(strings_of(&out))
}

/// Once an item fails, every longer run of items fails the same way.
pub proof fn lemma_items_error_sticks(items: Seq<Seq<char>>, k: int, e: ConfigFault)
    requires
        0 <= k <= items.len(),
        spec_parse_items(items.take(k)) == Err::<Seq<Seq<char>>, ConfigFault>(e),
    ensures
        spec_parse_items(items) == Err::<Seq<Seq<char>>, ConfigFault>(e),
    decreases items.len() - k,
{
    if k < items.len() {
        assert(items.take(k + 1).drop_last() =~= items.take(k));
        lemma_items_error_sticks(items, k + 1, e);
    } else {
        assert(items.take(k) =~= items);
    }
}

/// An unsigned integer in decimal that fits under `max`.
pub open spec fn spec_parse_uint(v: Seq<char>, max: nat) -> Result<nat, ConfigFault> {
    match parse_unsigned(v, max) {
        Some(n) => Ok(n),
        None => Err(ConfigFault::InvalidValue(v)),
    }
}

/// An unsigned 64-bit value.
pub fn parse_u64(v: &Vec<char>) -> (r: Result<u64, ConfigError>)
    ensures
        match r {
            Ok(n) => spec_parse_uint(v@, u64::MAX as nat) == Ok::<nat, ConfigFault>(n as nat),
            Err(e) => spec_parse_uint(v@, u64::MAX as nat) == Err::<nat, ConfigFault>(e@),
        },
{
    match parse_u64_chars(v) {
        Some(n) => Ok(n),
        None => Err(invalid_value(v)),
    }
}

/// An unsigned 32-bit value.
pub fn parse_u32(v: &Vec<char>) -> (r: Result<u32, ConfigError>)
    ensures
        match r {
            Ok(n) => spec_parse_uint(v@, u32::MAX as nat) == Ok::<nat, ConfigFault>(n as nat),
            Err(e) => spec_parse_uint(v@, u32::MAX as nat) == Err::<nat, ConfigFault>(e@),
        },
{
    match parse_u64_chars(v) {
        Some(n) => {
            if n <= u32::MAX as u64 {
                Ok(n as u32)
            } else {
                Err(invalid_value(v))
            }
        },
        None => Err(invalid_value(v)),
    }
}

/// A positive integer; zero is reported as `field=0`.
pub open spec fn spec_parse_positive(v: Seq<char>, field: Seq<char>, max: nat) -> Result<
    nat,
    ConfigFault,
> {
    match spec_parse_uint(v, max) {
        Err(e) => Err(e),
        Ok(n) => if n == 0 {
            Err(ConfigFault::InvalidValue(field + "=0"@))
        } else {
            Ok(n)
        },
    }
}

/// A nonzero unsigned 32-bit value.
pub fn parse_positive_u32(v: &Vec<char>, field: &Vec<char>) -> (r: Result<u32, ConfigError>)
    ensures
        match r {
            Ok(n) => spec_parse_positive(v@, field@, u32::MAX as nat) == Ok::<nat, ConfigFault>(
                n as nat,
            ),
            Err(e) => spec_parse_positive(v@, field@, u32::MAX as nat) == Err::<
                nat,
                ConfigFault,
            >(e@),
        },
{
    let n = parse_u32(v)?;
    if n == 0 {
        let mut msg = copy_chars(field);
        push_str(&mut msg, "=0");
        return Err(invalid_value(&msg));
    }
    Ok(n)
}

/// A nonzero unsigned 64-bit value.
pub fn parse_positive_u64(v: &Vec<char>, field: &Vec<char>) -> (r: Result<u64, ConfigError>)
    ensures
        match r {
            Ok(n) => spec_parse_positive(v@, field@, u64::MAX as nat) == Ok::<nat, ConfigFault>(
                n as nat,
            ),
            Err(e) => spec_parse_positive(v@, field@, u64::MAX as nat) == Err::<
                nat,
                ConfigFault,
            >(e@),
        },
{
    let n = parse_u64(v)?;
    if n == 0 {
        let mut msg = copy_chars(field);
        push_str(&mut msg, "=0");
        return Err(invalid_value(&msg));
    }
    Ok(n)
}

/// An integer no larger than `maximum`, optionally also positive; a value
/// too large is reported as `field=VALUE`.
pub open spec fn spec_parse_bounded(
    v: Seq<char>,
    field: Seq<char>,
    maximum: u64,
    positive: bool,
) -> Result<u64, ConfigFault> {
    let parsed = if positive {
        spec_parse_positive(v, field, u64::MAX as nat)
    } else {
        spec_parse_uint(v, u64::MAX as nat)
    };
    match parsed {
        Err(e) => Err(e),
        Ok(n) => if n > maximum {
            Err(ConfigFault::InvalidValue(field + "="@ + decimal(n)))
        } else {
            Ok(n as u64)
        },
    }
}

/// An unsigned 64-bit value no larger than `maximum` (and nonzero where asked).
pub fn parse_bounded_u64(v: &Vec<char>, field: &Vec<char>, maximum: u64, positive: bool) -> (r:
    Result<u64, ConfigError>)
    ensures
        spec_parse_bounded(v@, field@, maximum, positive) == crate::config::lift(r),
{
    let n = if positive {
        parse_positive_u64(v, field)?
    } else {
        parse_u64(v)?
    };
    if n > maximum {
        let mut msg = copy_chars(field);
        push_str(&mut msg, "=");
        push_decimal(&mut msg, n);
        return Err(invalid_value(&msg));
    }
    Ok(n)
}

/// `true` or `false`, unquoted.
pub open spec fn spec_parse_bool(v: Seq<char>) -> Result<bool, ConfigFault> {
    if v == "true"@ {
        Ok(true)
    } else if v == "false"@ {
        Ok(false)
    } else {
        Err(ConfigFault::InvalidValue(v))
    }
}

/// The configuration word of a signal.
pub open spec fn signal_word(sig: Signal) -> Seq<char> {
    match sig {
        Signal::Hangup => "hangup"@,
        Signal::Terminate => "terminate"@,
        Signal::Kill => "kill"@,
    }
}

/// The configuration word of a log level.
pub open spec fn level_config_word(level: LogLevel) -> Seq<char> {
    match level {
        LogLevel::Error => "error"@,
        LogLevel::Warn => "warn"@,
        LogLevel::Notice => "notice"@,
        LogLevel::Debug => "debug"@,
    }
}

/// A boolean, signal or log level value is read as the one whose word it
/// is, and only from that word: `true`/`false`, `hangup`/`terminate`/`kill`,
/// `error`/`warn`/`notice`/`debug`.
pub proof fn lemma_value_words(v: Seq<char>, b: bool, sig: Signal, level: LogLevel)
    ensures
        spec_parse_bool(v) == Ok::<bool, ConfigFault>(b) <==> v == (if b {
            "true"@
        } else {
            "false"@
        }),
        spec_parse_signal(v) == Ok::<Signal, ConfigFault>(sig) <==> v == signal_word(sig),
        spec_parse_log_level(v) == Ok::<LogLevel, ConfigFault>(level) <==> v == level_config_word(
            level,
        ),
{
    reveal_strlit("true");
    reveal_strlit("false");
    reveal_strlit("hangup");
    reveal_strlit("terminate");
    reveal_strlit("kill");
    reveal_strlit("error");
    reveal_strlit("warn");
    reveal_strlit("notice");
    reveal_strlit("debug");
    assert("true"@.len() != "false"@.len());
    let sigs = seq!["hangup"@, "terminate"@, "kill"@];
    assert forall|a: int, c: int| 0 <= a < c < 3 implies #[trigger] sigs[a] != #[trigger] sigs[c] by {
        assert(sigs[a].len() != sigs[c].len());
    }
    let levels = seq!["error"@, "warn"@, "notice"@, "debug"@];
    assert forall|a: int, c: int| 0 <= a < c < 4 implies #[trigger] levels[a] != #[trigger] levels[c] by {
        if levels[a].len() == levels[c].len() {
            assert(levels[a][0] != levels[c][0]);
        }
    }
    assert(sigs[0] != sigs[1] && sigs[0] != sigs[2] && sigs[1] != sigs[2]);
    assert(levels[0] != levels[1] && levels[0] != levels[2] && levels[0] != levels[3]);
    assert(levels[1] != levels[2] && levels[1] != levels[3] && levels[2] != levels[3]);
}

/// A boolean value.
pub fn parse_bool(v: &Vec<char>) -> (r: Result<bool, ConfigError>)
    ensures
        spec_parse_bool(v@) == crate::config::lift(r),
{
    if eq_str(v, "true") {
        Ok(true)
    } else if eq_str(v, "false") {
        Ok(false)
    } else {
        Err(invalid_value(v))
    }
}

/// A signal name.
pub open spec fn spec_parse_signal(v: Seq<char>) -> Result<Signal, ConfigFault> {
    if v == "hangup"@ {
        Ok(Signal::Hangup)
    } else if v == "terminate"@ {
        Ok(Signal::Terminate)
    } else if v == "kill"@ {
        Ok(Signal::Kill)
    } else {
        Err(ConfigFault::InvalidValue("shutdown.signal="@ + v))
    }
}

/// A signal name.
pub fn parse_signal(v: &Vec<char>) -> (r: Result<Signal, ConfigError>)
    ensures
        spec_parse_signal(v@) == crate::config::lift(r),
{
    if eq_str(v, "hangup") {
        Ok(Signal::Hangup)
    } else if eq_str(v, "terminate") {
        Ok(Signal::Terminate)
    } else if eq_str(v, "kill") {
        Ok(Signal::Kill)
    } else {
        Err(invalid_value(&joined("shutdown.signal=", v)))
    }
}

/// A log level name.
pub open spec fn spec_parse_log_level(v: Seq<char>) -> Result<LogLevel, ConfigFault> {
    if v == "error"@ {
        Ok(LogLevel::Error)
    } else if v == "warn"@ {
        Ok(LogLevel::Warn)
    } else if v == "notice"@ {
        Ok(LogLevel::Notice)
    } else if v == "debug"@ {
        Ok(LogLevel::Debug)
    } else {
        Err(ConfigFault::InvalidValue("logging.level="@ + v))
    }
}

/// A log level name.
pub fn parse_log_level(v: &Vec<char>) -> (r: Result<LogLevel, ConfigError>)
    ensures
        spec_parse_log_level(v@) == crate::config::lift(r),
{
    if eq_str(v, "error") {
        Ok(LogLevel::Error)
    } else if eq_str(v, "warn") {
        Ok(LogLevel::Warn)
    } else if eq_str(v, "notice") {
        Ok(LogLevel::Notice)
    } else if eq_str(v, "debug") {
        Ok(LogLevel::Debug)
    } else {
        Err(invalid_value(&joined("logging.level=", v)))
    }
}

/// A lowercase ASCII letter.
pub open spec fn is_lower(c: char) -> bool {
    'a' <= c && c <= 'z'
}

/// An uppercase ASCII letter.
pub open spec fn is_upper(c: char) -> bool {
    'A' <= c && c <= 'Z'
}

/// A service name: a lowercase letter, then lowercase letters, digits, `-`
/// and `_`.
pub open spec fn valid_service_name(name: Seq<char>) -> bool {
    &&& name.len() > 0
    &&& is_lower(name[0])
    &&& forall|i: int|
        1 <= i < name.len() ==> is_lower(name[i]) || is_digit(name[i]) || name[i] == '-'
            || name[i] == '_'
}

/// An environment variable name: an uppercase letter or `_`, then uppercase
/// letters, digits and `_`.
pub open spec fn valid_env_name(name: Seq<char>) -> bool {
    &&& name.len() > 0
    &&& (is_upper(name[0]) || name[0] == '_')
    &&& forall|i: int| 1 <= i < name.len() ==> is_upper(name[i]) || is_digit(name[i]) || name[i] == '_'
}

/// The check of a service name.
pub open spec fn spec_validate_name(name: Seq<char>) -> Result<(), ConfigFault> {
    if valid_service_name(name) {
        Ok(())
    } else {
        Err(ConfigFault::InvalidValue("service name "@ + name))
    }
}

/// The check of an environment variable name.
pub open spec fn spec_validate_env_name(name: Seq<char>) -> Result<(), ConfigFault> {
    if valid_env_name(name) {
        Ok(())
    } else {
        Err(ConfigFault::InvalidValue("env name "@ + name))
    }
}

/// Checks a service name.
pub fn validate_name(name: &Vec<char>) -> (r: Result<(), ConfigError>)
    ensures
        spec_validate_name(name@) == crate::config::lift(r),
{
    if name.len() == 0 || !('a' <= name[0] && name[0] <= 'z') {
        return Err(invalid_value(&joined("service name ", name)));
    }
    let mut i: usize = 1;
    while i < name.len()
        invariant
            1 <= i <= name.len(),
            forall|j: int|
                1 <= j < i ==> is_lower(name@[j]) || is_digit(name@[j]) || name@[j] == '-'
                    || name@[j] == '_',
        decreases name.len() - i,
    {
        let c = name[i];
        if !(('a' <= c && c <= 'z') || ('0' <= c && c <= '9') || c == '-' || c == '_') {
            return Err(invalid_value(&joined("service name ", name)));
        }
        i = i + 1;
    }
    Ok(())
}

/// Checks an environment variable name.
pub fn validate_env_name(name: &Vec<char>) -> (r: Result<(), ConfigError>)
    ensures
        spec_validate_env_name(name@) == crate::config::lift(r),
{
    if name.len() == 0 || !(('A' <= name[0] && name[0] <= 'Z') || name[0] == '_') {
        return Err(invalid_value(&joined("env name ", name)));
    }
    let mut i: usize = 1;
    while i < name.len()
        invariant
            1 <= i <= name.len(),
            forall|j: int| 1 <= j < i ==> is_upper(name@[j]) || is_digit(name@[j]) || name@[j] == '_',
        decreases name.len() - i,
    {
        let c = name[i];
        if !(('A' <= c && c <= 'Z') || ('0' <= c && c <= '9') || c == '_') {
            return Err(invalid_value(&joined("env name ", name)));
        }
        i = i + 1;
    }
    Ok(())
}

/// A path component that `validate_path` refuses.
pub open spec fn bad_component(c: Seq<char>) -> bool {
    c.len() == 0 || c == "."@ || c == ".."@
}

/// An absolute path with no NUL, no backslash, and (unless it is `/`) no
/// empty, `.` or `..` component.
pub open spec fn valid_path(path: Seq<char>) -> bool {
    &&& has_prefix(path, "/"@)
    &&& !path.contains('\0')
    &&& !path.contains('\\')
    &&& (path == "/"@ || forall|i: int|
        1 <= i < split(path, '/').len() ==> !bad_component(#[trigger] split(path, '/')[i]))
}

/// The check of a path.
pub open spec fn spec_validate_path(path: Seq<char>, field: Seq<char>) -> Result<(), ConfigFault> {
    if valid_path(path) {
        Ok(())
    } else {
        Err(ConfigFault::InvalidValue(field + "="@ + path))
    }
}

/// Checks a path.
pub fn validate_path(path: &Vec<char>, field: &Vec<char>) -> (r: Result<(), ConfigError>)
    ensures
        spec_validate_path(path@, field@) == crate::config::lift(r),
{
    let err = joined3(field, "=", path);
    if !starts_with_str(path, "/") || contains_char(path, '\0') || contains_char(path, '\\') {
        return Err(invalid_value(&err));
    }
    if eq_str(path, "/") {
        return Ok(());
    }
    let parts = split_chars(path, '/');
    let ghost pieces = split(path@, '/');
    let mut i: usize = 1;
    while i < parts.len()
        invariant
            1 <= i,
            pieces == parts@.map_values(|p: Vec<char>| p@),
            pieces == split(path@, '/'),
            path@ != "/"@,
            err@ == field@ + "="@ + path@,
            has_prefix(path@, "/"@),
            !path@.contains('\0'),
            !path@.contains('\\'),
            forall|j: int| 1 <= j < i && j < pieces.len() ==> !bad_component(#[trigger] pieces[j]),
        decreases parts.len() - i,
    {
        assert(pieces[i as int] == parts@[i as int]@);
        if parts[i].len() == 0 || eq_str(&parts[i], ".") || eq_str(&parts[i], "..") {
            assert(bad_component(pieces[i as int]));
            assert(!valid_path(path@));
            return Err(invalid_value(&err));
        }
        i = i + 1;
    }
    Ok(())
}

/// A capability the kernel knows.
pub open spec fn known_capability(c: Seq<char>) -> bool {
    c == "mount"@ || c == "raw-io"@ || c == "net-admin"@ || c == "net-raw"@ || c == "memory-map"@
        || c == "device-admin"@
}

/// Capabilities are checked in order: the first one that repeats an earlier
/// one, or is unknown, decides the error.
pub open spec fn spec_validate_capabilities(service: Seq<char>, caps: Seq<Seq<char>>) -> Result<
    (),
    ConfigFault,
>
    decreases caps.len(),
{
    if caps.len() == 0 {
        Ok(())
    } else {
        match spec_validate_capabilities(service, caps.drop_last()) {
            Err(e) => Err(e),
            Ok(_) => {
                let c = caps.last();
                if caps.drop_last().contains(c) {
                    Err(ConfigFault::InvalidValue(service + ".capabilities duplicate="@ + c))
                } else if !known_capability(c) {
                    Err(ConfigFault::InvalidValue(service + ".capabilities="@ + c))
                } else {
                    Ok(())
                }
            },
        }
    }
}

/// Checks that every capability is one of the known ones.
pub fn validate_capabilities(service: &Vec<char>, caps: &Vec<String>) -> (r: Result<
    (),
    ConfigError,
>)
    ensures
        spec_validate_capabilities(service@, texts(caps@)) == crate::config::lift(r),
{
    let ghost all = texts(caps@);
    let mut seen: Vec<Vec<char>> = Vec::new();
    let mut i: usize = 0;
    while i < caps.len()
        invariant
            i <= caps.len(),
            all == texts(caps@),
            seen@.map_values(|p: Vec<char>| p@) == all.take(i as int),
            spec_validate_capabilities(service@, all.take(i as int)) == Ok::<(), ConfigFault>(()),
        decreases caps.len() - i,
    {
        let c = crate::text::chars_of_string(&caps[i]);
        assert(all.take(i + 1).drop_last() =~= all.take(i as int));
        assert(all.take(i + 1).last() == c@);
        if contains_text(&seen, &c) {
            let msg = joined3(service, ".capabilities duplicate=", &c);
            proof {
                lemma_caps_error_sticks(service@, all, i as int + 1);
            }
            return Err(invalid_value(&msg));
        }
        if !(eq_str(&c, "mount") || eq_str(&c, "raw-io") || eq_str(&c, "net-admin") || eq_str(
            &c,
            "net-raw",
        ) || eq_str(&c, "memory-map") || eq_str(&c, "device-admin")) {
            let msg = joined3(service, ".capabilities=", &c);
            proof {
                lemma_caps_error_sticks(service@, all, i as int + 1);
            }
            return Err(invalid_value(&msg));
        }
        let ghost before = seen@.map_values(|p: Vec<char>| p@);
        seen.push(c);
        assert(seen@.map_values(|p: Vec<char>| p@) =~= before.push(all[i as int]));
        assert(all.take(i + 1) =~= all.take(i as int).push(all[i as int]));
        i = i + 1;
    }
    assert(all.take(caps.len() as int) =~= all);
    Ok(())
}

/// One of the texts equals `c`.
pub fn contains_text(seen: &Vec<Vec<char>>, c: &Vec<char>) -> (b: bool)
    ensures
        b == seen@.map_values(|p: Vec<char>| p@).contains(c@),
{
    let mut j: usize = 0;
    while j < seen.len()
        invariant
            j <= seen.len(),
            forall|k: int| 0 <= k < j ==> seen@[k]@ != c@,
        decreases seen.len() - j,
    {
        if crate::text::eq_chars(&seen[j], c) {
            assert(seen@.map_values(|p: Vec<char>| p@)[j as int] == c@);
            return true;
        }
        j = j + 1;
    }
    let ghost sv = seen@.map_values(|p: Vec<char>| p@);
    assert(!sv.contains(c@)) by {
        if sv.contains(c@) {
            let k = choose|k: int| 0 <= k < sv.len() && sv[k] == c@;
            assert(sv[k] == seen@[k]@);
        }
    }
    false
}

/// Once a capability fails, every longer list fails the same way.
pub proof fn lemma_caps_error_sticks(service: Seq<char>, caps: Seq<Seq<char>>, k: int)
    requires
        0 <= k <= caps.len(),
        spec_validate_capabilities(service, caps.take(k)) is Err,
    ensures
        spec_validate_capabilities(service, caps) == spec_validate_capabilities(service, caps.take(k)),
    decreases caps.len() - k,
{
    if k < caps.len() {
        assert(caps.take(k + 1).drop_last() =~= caps.take(k));
        lemma_caps_error_sticks(service, caps, k + 1);
    } else {
        assert(caps.take(k) =~= caps);
    }
}

/// A stream target: `inherit`, `null`, `serial` or `file:` and an absolute
/// path, all quoted.
pub open spec fn spec_parse_stream(v: Seq<char>) -> Result<StreamTarget, ConfigFault> {
    match spec_parse_string(v) {
        Err(e) => Err(e),
        Ok(s) => if s == "inherit"@ {
            Ok(StreamTarget::Inherit)
        } else if s == "null"@ {
            Ok(StreamTarget::Null)
        } else if s == "serial"@ {
            Ok(StreamTarget::Serial)
        } else if has_prefix(s, "file:"@) {
            let path = s.skip(5);
            match spec_validate_path(path, "stream.file"@) {
                Err(e) => Err(e),
                Ok(_) => Ok(StreamTarget::File(path)),
            }
        } else {
            Err(ConfigFault::InvalidValue("stream="@ + s))
        },
    }
}

/// A stream target: `inherit`, `null`, `serial` or `file:` and a path.
pub fn parse_stream(v: &Vec<char>) -> (r: Result<StreamSpec, ConfigError>)
    ensures
        spec_parse_stream(v@) == crate::config::lift(r),
{
    let s = parse_string(v)?;
    if eq_str(&s, "inherit") {
        Ok(StreamSpec::Inherit)
    } else if eq_str(&s, "null") {
        Ok(StreamSpec::Null)
    } else if eq_str(&s, "serial") {
        Ok(StreamSpec::Serial)
    } else if starts_with_str(&s, "file:") {
        proof {
            assert("file:"@.len() == 5) by {
                reveal_strlit("file:");
            }
        }
        let path = slice_chars(&s, 5, s.len());
        assert(path@ =~= s@.skip(5));
        let field = chars_of("stream.file");
        validate_path(&path, &field)?;
        Ok(StreamSpec::File(string_of(&path)))
    } else {
        Err(invalid_value(&joined("stream=", &s)))
    }
}

} // verus!
