//! The keys of state that a boundary reads and writes.

use vstd::prelude::*;
use vstd::utf8::{
    decode_utf8, decode_utf8_encode_utf8, encode_utf8, encode_utf8_decode_utf8,
    encode_utf8_valid_utf8, is_ascii_chars, is_ascii_chars_encode_utf8, valid_utf8,
};
use crate::text::{
    ascii_lower, chars_of, encoding_is_injective, hex_chars, hex_digit, hex_of_bytes, joined,
    spliced, splicing_undoes_splitting, split, split_at_a_separator, split_of_one_piece, split_on,
    text_eq, text_of, text_of_bytes, texts,
};

verus! {

/// What a typed key starts with on the wire.
pub const STATE_KEY_V1_PREFIX: &'static str = "deja:state:v1";

/// A key of state that a boundary reads or writes.
#[derive(Debug, PartialEq, Eq, Hash)]
pub enum StateKey {
    /// A key without a type: kept as it is, and never read for a table.
    Opaque(String),
    /// A database row. The column belongs to the identity, so that rows are
    /// never grouped by a value of the wrong column.
    DbRow { table: String, pk_column: String, pk_value: String },
    /// A database query, where the row's primary key is not known.
    DbQuery { table: String, fingerprint: String },
    /// A Redis key.
    RedisKey { key: String },
}

/// What a state key says.
pub enum StateKeyView {
    Opaque(Seq<char>),
    DbRow { table: Seq<char>, pk_column: Seq<char>, pk_value: Seq<char> },
    DbQuery { table: Seq<char>, fingerprint: Seq<char> },
    RedisKey { key: Seq<char> },
}

impl View for StateKey {
    type V = StateKeyView;

    open spec fn view(&self) -> StateKeyView {
        match *self {
            StateKey::Opaque(raw) => StateKeyView::Opaque(raw@),
            StateKey::DbRow { table, pk_column, pk_value } => StateKeyView::DbRow {
                table: table@,
                pk_column: pk_column@,
                pk_value: pk_value@,
            },
            StateKey::DbQuery { table, fingerprint } => StateKeyView::DbQuery {
                table: table@,
                fingerprint: fingerprint@,
            },
            StateKey::RedisKey { key } => StateKeyView::RedisKey { key: key@ },
        }
    }
}

impl Clone for StateKey {
    fn clone(&self) -> (r: StateKey)
        ensures
            r == *self,
    {
        match self {
            StateKey::Opaque(raw) => StateKey::Opaque(raw.clone()),
            StateKey::DbRow { table, pk_column, pk_value } => StateKey::DbRow {
                table: table.clone(),
                pk_column: pk_column.clone(),
                pk_value: pk_value.clone(),
            },
            StateKey::DbQuery { table, fingerprint } => StateKey::DbQuery {
                table: table.clone(),
                fingerprint: fingerprint.clone(),
            },
            StateKey::RedisKey { key } => StateKey::RedisKey { key: key.clone() },
        }
    }
}

/// Why a typed key could not be read.
#[derive(Debug, PartialEq, Eq)]
pub struct StateKeyParseError {
    message: String,
}

pub const NO_SEPARATOR: &'static str = "typed state key missing kind separator";

pub const ODD_LENGTH: &'static str = "hex component has odd length";

pub const NO_HEX_DIGIT: &'static str = "hex component contains non-hex digit";

pub const NO_UTF8: &'static str = "hex component is not utf-8";

impl StateKeyParseError {
    /// What the error says.
    pub closed spec fn says(self) -> Seq<char> {
        self.message@
    }

    pub fn new(message: &str) -> (r: StateKeyParseError)
        ensures
            r.says() == message@,
    {
        StateKeyParseError { message: message.to_owned() }
    }

    /// What the error says.
    pub fn message(&self) -> (r: &str)
        ensures
            r@ == self.says(),
    {
        self.message.as_str()
    }
}

impl Clone for StateKeyParseError {
    fn clone(&self) -> (r: StateKeyParseError)
        ensures
            r == *self,
    {
        StateKeyParseError { message: self.message.clone() }
    }
}

/// The number a hexadecimal digit writes, in either case.
pub open spec fn nibble(b: u8) -> Option<u8> {
    if 48 <= b <= 57 {
        Some((b - 48) as u8)
    } else if 97 <= b <= 102 {
        Some((b - 87) as u8)
    } else if 65 <= b <= 70 {
        Some((b - 55) as u8)
    } else {
        None
    }
}

/// The bytes that pairs of hexadecimal digits write.
pub open spec fn unhexed(digits: Seq<u8>) -> Seq<u8> {
    Seq::new(
        digits.len() / 2,
        |i: int| (nibble(digits[2 * i])->0 * 16 + nibble(digits[2 * i + 1])->0) as u8,
    )
}

/// The text that a component holds, or why it holds none.
#[verifier::opaque]
pub open spec fn decoded(component: Seq<char>) -> Result<Seq<char>, Seq<char>> {
    let digits = encode_utf8(component);
    if digits.len() % 2 != 0 {
        Err(ODD_LENGTH@)
    } else if !(forall|i: int| 0 <= i < digits.len() ==> nibble(#[trigger] digits[i]) is Some) {
        Err(NO_HEX_DIGIT@)
    } else if !valid_utf8(unhexed(digits)) {
        Err(NO_UTF8@)
    } else {
        Ok(decode_utf8(unhexed(digits)))
    }
}

/// A text as a component: its UTF-8 bytes in hexadecimal.
pub open spec fn encoded(text: Seq<char>) -> Seq<char> {
    hex_chars(encode_utf8(text))
}

/// A text as a component: its UTF-8 bytes in hexadecimal.
pub fn encode_hex_component(input: &str) -> (r: String)
    ensures
        r@ == encoded(input@),
{
    hex_of_bytes(input.as_bytes())
}

/// The number a hexadecimal digit writes.
pub fn hex_nibble(byte: u8) -> (r: Result<u8, StateKeyParseError>)
    ensures
        match r {
            Ok(n) => nibble(byte) == Some(n),
            Err(e) => nibble(byte) is None && e.says() == NO_HEX_DIGIT@,
        },
{
    if 48 <= byte && byte <= 57 {
        Ok(byte - 48)
    } else if 97 <= byte && byte <= 102 {
        Ok(byte - 87)
    } else if 65 <= byte && byte <= 70 {
        Ok(byte - 55)
    } else {
        Err(StateKeyParseError::new(NO_HEX_DIGIT))
    }
}

/// The text that a component holds.
#[verifier::loop_isolation(false)]
pub fn decode_hex_component(input: &str) -> (r: Result<String, StateKeyParseError>)
    ensures
        match r {
            Ok(text) => decoded(input@) == Ok::<Seq<char>, Seq<char>>(text@),
            Err(e) => decoded(input@) == Err::<Seq<char>, Seq<char>>(e.says()),
        },
{
    reveal(decoded);
    let digits = input.as_bytes();
    if digits.len() % 2 != 0 {
        return Err(StateKeyParseError::new(ODD_LENGTH));
    }
    let mut bytes: Vec<u8> = Vec::new();
    let mut i: usize = 0;
    while i < digits.len()
        invariant
            0 <= i <= digits@.len(),
            i % 2 == 0,
            bytes@ == unhexed(digits@.take(i as int)),
            forall|j: int| 0 <= j < i ==> nibble(#[trigger] digits@[j]) is Some,
        decreases digits@.len() - i,
    {
        let high: u8 = match hex_nibble(digits[i]) {
            Ok(n) => n,
            Err(e) => {
                return Err(e);
            },
        };
        let low: u8 = match hex_nibble(digits[i + 1]) {
            Ok(n) => n,
            Err(e) => {
                return Err(e);
            },
        };
        let ghost was = bytes@;
        bytes.push(high * 16 + low);
        proof {
            let now = digits@.take(i as int + 2);
            assert(unhexed(now) =~= was.push((high * 16 + low) as u8)) by {
                assert forall|k: int| 0 <= k < unhexed(now).len() implies unhexed(now)[k]
                    == was.push((high * 16 + low) as u8)[k] by {
                    if 2 * k < i {
                        assert(now[2 * k] == digits@.take(i as int)[2 * k]);
                        assert(now[2 * k + 1] == digits@.take(i as int)[2 * k + 1]);
                    } else {
                        assert(2 * k == i);
                    }
                }
            }
        }
        i = i + 2;
    }
    proof {
        assert(digits@.take(digits@.len() as int) =~= digits@);
    }
    match text_of_bytes(bytes) {
        Some(text) => Ok(text),
        None => Err(StateKeyParseError::new(NO_UTF8)),
    }
}

/// A key on the wire. An opaque key is the text it holds.
pub open spec fn wire_of(k: StateKeyView) -> Seq<char> {
    match k {
        StateKeyView::Opaque(raw) => raw,
        StateKeyView::DbRow { table, pk_column, pk_value } => STATE_KEY_V1_PREFIX@ + ":db_row:"@
            + encoded(table) + ":"@ + encoded(pk_column) + ":"@ + encoded(pk_value),
        StateKeyView::DbQuery { table, fingerprint } => STATE_KEY_V1_PREFIX@ + ":db_query:"@
            + encoded(table) + ":"@ + encoded(fingerprint),
        StateKeyView::RedisKey { key } => STATE_KEY_V1_PREFIX@ + ":redis:"@ + encoded(key),
    }
}

/// The typed key in the parts behind the prefix. What fits no typed key stays
/// opaque, as the whole text `wire`.
pub open spec fn key_of_parts(wire: Seq<char>, parts: Seq<Seq<char>>) -> Result<
    StateKeyView,
    Seq<char>,
> {
    if parts.len() == 4 && parts[0] == "db_row"@ {
        match (decoded(parts[1]), decoded(parts[2]), decoded(parts[3])) {
            (Ok(table), Ok(pk_column), Ok(pk_value)) => Ok(
                StateKeyView::DbRow { table, pk_column, pk_value },
            ),
            (Err(e), _, _) => Err(e),
            (Ok(_), Err(e), _) => Err(e),
            (Ok(_), Ok(_), Err(e)) => Err(e),
        }
    } else if parts.len() == 3 && parts[0] == "db_query"@ {
        match (decoded(parts[1]), decoded(parts[2])) {
            (Ok(table), Ok(fingerprint)) => Ok(StateKeyView::DbQuery { table, fingerprint }),
            (Err(e), _) => Err(e),
            (Ok(_), Err(e)) => Err(e),
        }
    } else if parts.len() == 2 && parts[0] == "redis"@ {
        match decoded(parts[1]) {
            Ok(key) => Ok(StateKeyView::RedisKey { key }),
            Err(e) => Err(e),
        }
    } else {
        Ok(StateKeyView::Opaque(wire))
    }
}

/// The key that a text on the wire writes, or why it writes none.
pub open spec fn key_of(wire: Seq<char>) -> Result<StateKeyView, Seq<char>> {
    let n = STATE_KEY_V1_PREFIX@.len() as int;
    if !STATE_KEY_V1_PREFIX@.is_prefix_of(wire) {
        Ok(StateKeyView::Opaque(wire))
    } else if wire.len() == n || wire[n] != ':' {
        Err(NO_SEPARATOR@)
    } else {
        key_of_parts(wire, split_on(wire.subrange(n + 1, wire.len() as int), ':'))
    }
}

impl StateKey {
    /// Reads a key from the wire. A text without the prefix of typed keys, or
    /// with a kind or number of parts that no typed key has, is opaque.
    #[verifier::loop_isolation(false)]
    pub fn parse(wire: &str) -> (r: Result<StateKey, StateKeyParseError>)
        ensures
            match r {
                Ok(k) => key_of(wire@) == Ok::<StateKeyView, Seq<char>>(k@),
                Err(e) => key_of(wire@) == Err::<StateKeyView, Seq<char>>(e.says()),
            },
    {
        let chars = chars_of(wire);
        let prefix = chars_of(STATE_KEY_V1_PREFIX);
        let n: usize = prefix.len();
        let mut i: usize = 0;
        while i < n && i < chars.len() && chars[i] == prefix[i]
            invariant
                0 <= i <= n,
                i <= chars@.len(),
                forall|j: int| 0 <= j < i ==> chars@[j] == prefix@[j],
            decreases n - i,
        {
            i = i + 1;
        }
        if i < n {
            proof {
                if STATE_KEY_V1_PREFIX@.is_prefix_of(wire@) {
                    assert(wire@.subrange(0, n as int)[i as int] == wire@[i as int]);
                }
            }
            return Ok(StateKey::Opaque(wire.to_owned()));
        }
        proof {
            assert(STATE_KEY_V1_PREFIX@ =~= wire@.subrange(0, n as int));
        }
        if chars.len() == n || chars[n] != ':' {
            return Err(StateKeyParseError::new(NO_SEPARATOR));
        }
        let rest = text_of(&chars, n + 1, chars.len());
        let parts = split(rest.as_str(), ':');
        let ghost views = texts(parts@);
        proof {
            assert(views == split_on(wire@.subrange(n as int + 1, wire@.len() as int), ':'));
        }
        if parts.len() == 4 && text_eq(parts[0].as_str(), "db_row") {
            let table = match decode_hex_component(parts[1].as_str()) {
                Ok(text) => text,
                Err(e) => {
                    return Err(e);
                },
            };
            let pk_column = match decode_hex_component(parts[2].as_str()) {
                Ok(text) => text,
                Err(e) => {
                    return Err(e);
                },
            };
            let pk_value = match decode_hex_component(parts[3].as_str()) {
                Ok(text) => text,
                Err(e) => {
                    return Err(e);
                },
            };
            Ok(StateKey::DbRow { table, pk_column, pk_value })
        } else if parts.len() == 3 && text_eq(parts[0].as_str(), "db_query") {
            let table = match decode_hex_component(parts[1].as_str()) {
                Ok(text) => text,
                Err(e) => {
                    return Err(e);
                },
            };
            let fingerprint = match decode_hex_component(parts[2].as_str()) {
                Ok(text) => text,
                Err(e) => {
                    return Err(e);
                },
            };
            Ok(StateKey::DbQuery { table, fingerprint })
        } else if parts.len() == 2 && text_eq(parts[0].as_str(), "redis") {
            let key = match decode_hex_component(parts[1].as_str()) {
                Ok(text) => text,
                Err(e) => {
                    return Err(e);
                },
            };
            Ok(StateKey::RedisKey { key })
        } else {
            Ok(StateKey::Opaque(wire.to_owned()))
        }
    }

    /// Writes the key for the wire. An opaque key is the text it holds.
    pub fn to_wire(&self) -> (r: String)
        ensures
            r@ == wire_of(self@),
    {
        match self {
            StateKey::Opaque(raw) => raw.clone(),
            StateKey::DbRow { table, pk_column, pk_value } => {
                let mut out = joined(STATE_KEY_V1_PREFIX, ":db_row:");
                out.append(encode_hex_component(table.as_str()).as_str());
                out.append(":");
                out.append(encode_hex_component(pk_column.as_str()).as_str());
                out.append(":");
                out.append(encode_hex_component(pk_value.as_str()).as_str());
                out
            },
            StateKey::DbQuery { table, fingerprint } => {
                let mut out = joined(STATE_KEY_V1_PREFIX, ":db_query:");
                out.append(encode_hex_component(table.as_str()).as_str());
                out.append(":");
                out.append(encode_hex_component(fingerprint.as_str()).as_str());
                out
            },
            StateKey::RedisKey { key } => {
                let mut out = joined(STATE_KEY_V1_PREFIX, ":redis:");
                out.append(encode_hex_component(key.as_str()).as_str());
                out
            },
        }
    }

    /// The table of a database key. Opaque and Redis keys have none.
    pub fn db_table(&self) -> (r: Option<&str>)
        ensures
            r.deep_view() == table_of(self@),
    {
        match self {
            StateKey::DbRow { table, .. } => Some(table.as_str()),
            StateKey::DbQuery { table, .. } => Some(table.as_str()),
            _ => None,
        }
    }
}

/// The table of a database key.
pub open spec fn table_of(k: StateKeyView) -> Option<Seq<char>> {
    match k {
        StateKeyView::DbRow { table, .. } => Some(table),
        StateKeyView::DbQuery { table, .. } => Some(table),
        _ => None,
    }
}

/// A key in its one written form. A text that writes no key stays as it is.
pub open spec fn canonical(wire: Seq<char>) -> Seq<char> {
    match key_of(wire) {
        Ok(k) => wire_of(k),
        Err(_) => wire,
    }
}

/// A key in its one written form.
pub fn canonical_state_key_wire(key: &str) -> (r: String)
    ensures
        r@ == canonical(key@),
{
    match StateKey::parse(key) {
        Ok(k) => k.to_wire(),
        Err(_) => key.to_owned(),
    }
}

proof fn hex_digit_is_read_back(d: nat)
    requires
        d < 16,
    ensures
        nibble(hex_digit(d) as u8) == Some(d as u8),
        hex_digit(d) as int <= 127,
        hex_digit(d) != ':',
{
}

/// What a component holds is the text it was made from.
pub proof fn component_round_trips(text: Seq<char>)
    ensures
        decoded(encoded(text)) == Ok::<Seq<char>, Seq<char>>(text),
        forall|i: int| 0 <= i < encoded(text).len() ==> #[trigger] encoded(text)[i] != ':',
{
    reveal(decoded);
    let bytes = encode_utf8(text);
    let hex = encoded(text);
    assert forall|i: int| 0 <= i < hex.len() implies #[trigger] hex[i] != ':' && (hex[i] as int)
        <= 127 && nibble(hex[i] as u8) == Some(
        (if i % 2 == 0 {
            bytes[i / 2] / 16
        } else {
            bytes[i / 2] % 16
        }) as u8,
    ) by {
        if i % 2 == 0 {
            hex_digit_is_read_back((bytes[i / 2] / 16) as nat);
        } else {
            hex_digit_is_read_back((bytes[i / 2] % 16) as nat);
        }
    }
    assert(is_ascii_chars(hex));
    is_ascii_chars_encode_utf8(hex);
    let digits = encode_utf8(hex);
    assert(digits =~= Seq::new(hex.len(), |i: int| hex[i] as u8));
    assert forall|i: int| 0 <= i < digits.len() implies nibble(#[trigger] digits[i]) is Some by {
        assert(hex[i] != ':');
    }
    assert(unhexed(digits) =~= bytes) by {
        assert forall|k: int| 0 <= k < bytes.len() implies unhexed(digits)[k] == bytes[k] by {
            assert(hex[2 * k] != ':');
            assert(hex[2 * k + 1] != ':');
            assert((2 * k) / 2 == k);
            assert((2 * k + 1) / 2 == k);
        }
    }
    encode_utf8_valid_utf8(text);
    encode_utf8_decode_utf8(text);
}

/// Whether a key carries its type on the wire.
pub open spec fn is_typed(k: StateKeyView) -> bool {
    !(k is Opaque)
}

proof fn text_behind_the_prefix(middle: Seq<char>)
    requires
        middle.len() > 0,
        middle[0] == ':',
    ensures
        key_of(STATE_KEY_V1_PREFIX@ + middle) == key_of_parts(
            STATE_KEY_V1_PREFIX@ + middle,
            split_on(middle.subrange(1, middle.len() as int), ':'),
        ),
{
    let prefix = STATE_KEY_V1_PREFIX@;
    let wire = prefix + middle;
    let n = prefix.len() as int;
    assert(prefix =~= wire.subrange(0, n));
    assert(wire.subrange(n + 1, wire.len() as int) =~= middle.subrange(1, middle.len() as int));
}

spec fn no_colon(s: Seq<char>) -> bool {
    forall|i: int| 0 <= i < s.len() ==> #[trigger] s[i] != ':'
}

proof fn two_parts(a: Seq<char>, b: Seq<char>)
    requires
        no_colon(a),
        no_colon(b),
    ensures
        split_on(a.push(':') + b, ':') == seq![a, b],
{
    split_at_a_separator(a, b, ':');
    split_of_one_piece(a, ':');
    split_of_one_piece(b, ':');
    assert(seq![a] + seq![b] =~= seq![a, b]);
}

proof fn more_parts(a: Seq<char>, rest: Seq<char>)
    requires
        no_colon(a),
    ensures
        split_on(a.push(':') + rest, ':') == seq![a] + split_on(rest, ':'),
{
    split_at_a_separator(a, rest, ':');
    split_of_one_piece(a, ':');
}

proof fn four_parts(a: Seq<char>, b: Seq<char>, c: Seq<char>, d: Seq<char>)
    requires
        no_colon(a),
        no_colon(b),
        no_colon(c),
        no_colon(d),
    ensures
        split_on(a.push(':') + (b.push(':') + (c.push(':') + d)), ':') == seq![a, b, c, d],
{
    more_parts(a, b.push(':') + (c.push(':') + d));
    more_parts(b, c.push(':') + d);
    two_parts(c, d);
    assert(seq![a] + (seq![b] + seq![c, d]) =~= seq![a, b, c, d]);
}

proof fn redis_keys_round_trip(key: Seq<char>)
    ensures
        key_of(wire_of(StateKeyView::RedisKey { key })) == Ok::<StateKeyView, Seq<char>>(
            StateKeyView::RedisKey { key },
        ),
{
    reveal_strlit("db_row");
    reveal_strlit("db_query");
    reveal_strlit("redis");
    reveal_strlit(":redis:");
    let a = encoded(key);
    component_round_trips(key);
    let middle = ":redis:"@ + a;
    assert(wire_of(StateKeyView::RedisKey { key }) =~= STATE_KEY_V1_PREFIX@ + middle);
    text_behind_the_prefix(middle);
    let rest = middle.subrange(1, middle.len() as int);
    assert(rest =~= "redis"@.push(':') + a);
    two_parts("redis"@, a);
}

proof fn query_keys_round_trip(table: Seq<char>, fingerprint: Seq<char>)
    ensures
        key_of(wire_of(StateKeyView::DbQuery { table, fingerprint })) == Ok::<
            StateKeyView,
            Seq<char>,
        >(StateKeyView::DbQuery { table, fingerprint }),
{
    reveal_strlit("db_row");
    reveal_strlit("db_query");
    reveal_strlit(":db_query:");
    reveal_strlit(":");
    let a = encoded(table);
    let b = encoded(fingerprint);
    component_round_trips(table);
    component_round_trips(fingerprint);
    let middle = ":db_query:"@ + a + ":"@ + b;
    assert(wire_of(StateKeyView::DbQuery { table, fingerprint }) =~= STATE_KEY_V1_PREFIX@
        + middle);
    text_behind_the_prefix(middle);
    let rest = middle.subrange(1, middle.len() as int);
    assert(rest =~= "db_query"@.push(':') + (a.push(':') + b));
    more_parts("db_query"@, a.push(':') + b);
    two_parts(a, b);
    assert(split_on(rest, ':') =~= seq!["db_query"@, a, b]);
}

proof fn row_keys_round_trip(table: Seq<char>, pk_column: Seq<char>, pk_value: Seq<char>)
    ensures
        key_of(wire_of(StateKeyView::DbRow { table, pk_column, pk_value })) == Ok::<
            StateKeyView,
            Seq<char>,
        >(StateKeyView::DbRow { table, pk_column, pk_value }),
{
    reveal_strlit("db_row");
    let a = encoded(table);
    let b = encoded(pk_column);
    let c = encoded(pk_value);
    component_round_trips(table);
    component_round_trips(pk_column);
    component_round_trips(pk_value);
    let middle = ":db_row:"@ + a + ":"@ + b + ":"@ + c;
    let wire = STATE_KEY_V1_PREFIX@ + middle;
    row_wire(a, b, c);
    text_behind_the_prefix(middle);
    let rest = middle.subrange(1, middle.len() as int);
    four_parts("db_row"@, a, b, c);
    assert(key_of_parts(wire, seq!["db_row"@, a, b, c]) == Ok::<StateKeyView, Seq<char>>(
        StateKeyView::DbRow { table, pk_column, pk_value },
    ));
}

proof fn row_wire(a: Seq<char>, b: Seq<char>, c: Seq<char>)
    ensures
        ({
            let middle = ":db_row:"@ + a + ":"@ + b + ":"@ + c;
            &&& STATE_KEY_V1_PREFIX@ + ":db_row:"@ + a + ":"@ + b + ":"@ + c
                == STATE_KEY_V1_PREFIX@ + middle
            &&& middle.len() > 0
            &&& middle[0] == ':'
            &&& middle.subrange(1, middle.len() as int) == "db_row"@.push(':') + (a.push(':') + (
            b.push(':') + c))
        }),
{
    reveal_strlit("db_row");
    reveal_strlit(":db_row:");
    reveal_strlit(":");
    let middle = ":db_row:"@ + a + ":"@ + b + ":"@ + c;
    assert(STATE_KEY_V1_PREFIX@ + ":db_row:"@ + a + ":"@ + b + ":"@ + c =~= STATE_KEY_V1_PREFIX@
        + middle);
    assert(middle.subrange(1, middle.len() as int) =~= "db_row"@.push(':') + (a.push(':') + (
    b.push(':') + c)));
}

/// A typed key is read back from the wire as it was written.
pub proof fn typed_keys_round_trip(k: StateKeyView)
    requires
        is_typed(k),
    ensures
        key_of(wire_of(k)) == Ok::<StateKeyView, Seq<char>>(k),
{
    match k {
        StateKeyView::DbRow { table, pk_column, pk_value } => {
            row_keys_round_trip(table, pk_column, pk_value);
        },
        StateKeyView::DbQuery { table, fingerprint } => {
            query_keys_round_trip(table, fingerprint);
        },
        StateKeyView::RedisKey { key } => {
            redis_keys_round_trip(key);
        },
        _ => {},
    }
}

/// A text without the prefix of typed keys is opaque, and stays what it was.
pub proof fn legacy_texts_stay_opaque(raw: Seq<char>)
    requires
        !STATE_KEY_V1_PREFIX@.is_prefix_of(raw),
    ensures
        key_of(raw) == Ok::<StateKeyView, Seq<char>>(StateKeyView::Opaque(raw)),
        canonical(raw) == raw,
        table_of(StateKeyView::Opaque(raw)) is None,
{
}

/// A text that is read as an opaque key is that key.
proof fn opaque_keys_hold_the_text(wire: Seq<char>)
    ensures
        key_of(wire) matches Ok(StateKeyView::Opaque(raw)) ==> raw == wire,
{
}

proof fn hex_digit_is_written_back(b: u8)
    requires
        nibble(b) is Some,
    ensures
        b < 128,
        nibble(b)->0 < 16,
        seq![hex_digit(nibble(b)->0 as nat)] == ascii_lower(seq![b as char]),
{
    assert(seq![hex_digit(nibble(b)->0 as nat)] =~= ascii_lower(seq![b as char]));
}

/// A component is what its text is written as, but for the case of its digits.
pub proof fn components_come_back(component: Seq<char>)
    ensures
        decoded(component) matches Ok(text) ==> encoded(text) == ascii_lower(component),
{
    reveal(decoded);
    let digits = encode_utf8(component);
    if decoded(component) is Ok {
        let ascii = Seq::new(digits.len(), |i: int| digits[i] as char);
        assert forall|i: int| 0 <= i < digits.len() implies (#[trigger] digits[i]) < 128 by {
            hex_digit_is_written_back(digits[i]);
        }
        assert(is_ascii_chars(ascii));
        is_ascii_chars_encode_utf8(ascii);
        assert(encode_utf8(ascii) =~= digits);
        encoding_is_injective(ascii, component);
        let bytes = unhexed(digits);
        let text = decode_utf8(bytes);
        decode_utf8_encode_utf8(bytes);
        let hex = encoded(text);
        assert forall|i: int| 0 <= i < hex.len() implies #[trigger] hex[i] == ascii_lower(
            component,
        )[i] by {
            let k = i / 2;
            let high = nibble(digits[2 * k])->0;
            let low = nibble(digits[2 * k + 1])->0;
            hex_digit_is_written_back(digits[2 * k]);
            hex_digit_is_written_back(digits[2 * k + 1]);
            assert(bytes[k] == high * 16 + low);
            assert(seq![hex_digit(high as nat)][0] == ascii_lower(seq![digits[2 * k] as char])[0]);
            assert(seq![hex_digit(low as nat)][0] == ascii_lower(
                seq![digits[2 * k + 1] as char],
            )[0]);
            assert(component[i] == digits[i] as char);
            if i % 2 == 0 {
                assert(i == 2 * k);
            } else {
                assert(i == 2 * k + 1);
            }
        }
        assert(hex =~= ascii_lower(component));
    }
}

/// What is written of a key that was read is the text it was read from: to the
/// letter for an opaque key, and with the hexadecimal digits in lower case for
/// a typed one.
pub proof fn read_keys_are_written_back(wire: Seq<char>)
    ensures
        match key_of(wire) {
            Ok(k) => wire_of(k) == (if is_typed(k) {
                ascii_lower(wire)
            } else {
                wire
            }),
            Err(_) => true,
        },
{
    opaque_keys_hold_the_text(wire);
    if key_of(wire) is Ok && is_typed(key_of(wire)->Ok_0) {
        reveal_strlit("deja:state:v1");
        reveal_strlit("db_row");
        reveal_strlit("db_query");
        reveal_strlit("redis");
        reveal_strlit(":db_row:");
        reveal_strlit(":db_query:");
        reveal_strlit(":redis:");
        reveal_strlit(":");
        let prefix = STATE_KEY_V1_PREFIX@;
        let n = prefix.len() as int;
        let rest = wire.subrange(n + 1, wire.len() as int);
        let parts = split_on(rest, ':');
        splicing_undoes_splitting(rest, ':');
        assert(wire =~= prefix.push(':') + rest);
        assert(ascii_lower(prefix) =~= prefix);
        components_come_back(parts[1]);
        let k = key_of(wire)->Ok_0;
        match k {
            StateKeyView::DbRow { table, pk_column, pk_value } => {
                components_come_back(parts[2]);
                components_come_back(parts[3]);
                four_spliced(parts);
                assert(ascii_lower("db_row"@) =~= "db_row"@);
                assert(wire_of(k) =~= ascii_lower(wire));
            },
            StateKeyView::DbQuery { table, fingerprint } => {
                components_come_back(parts[2]);
                three_spliced(parts);
                assert(ascii_lower("db_query"@) =~= "db_query"@);
                assert(wire_of(k) =~= ascii_lower(wire));
            },
            StateKeyView::RedisKey { key } => {
                two_spliced(parts);
                assert(ascii_lower("redis"@) =~= "redis"@);
                assert(wire_of(k) =~= ascii_lower(wire));
            },
            _ => {},
        }
    }
}

proof fn two_spliced(p: Seq<Seq<char>>)
    requires
        p.len() == 2,
    ensures
        spliced(p, ':') == p[0].push(':') + p[1],
{
    assert(spliced(p.drop_last(), ':') == p[0]);
}

proof fn three_spliced(p: Seq<Seq<char>>)
    requires
        p.len() == 3,
    ensures
        spliced(p, ':') == (p[0].push(':') + p[1]).push(':') + p[2],
{
    two_spliced(p.drop_last());
}

proof fn four_spliced(p: Seq<Seq<char>>)
    requires
        p.len() == 4,
    ensures
        spliced(p, ':') == ((p[0].push(':') + p[1]).push(':') + p[2]).push(':') + p[3],
{
    three_spliced(p.drop_last());
}

/// A key's one written form is its own written form.
pub proof fn canonical_form_is_stable(wire: Seq<char>)
    ensures
        canonical(canonical(wire)) == canonical(wire),
        key_of(canonical(wire)) == key_of(wire),
{
    opaque_keys_hold_the_text(wire);
    match key_of(wire) {
        Ok(k) => {
            if is_typed(k) {
                typed_keys_round_trip(k);
            }
        },
        Err(_) => {},
    }
}

/// Two typed keys with one written form are one key.
pub proof fn typed_keys_are_told_apart(a: StateKeyView, b: StateKeyView)
    requires
        is_typed(a),
        is_typed(b),
        wire_of(a) == wire_of(b),
    ensures
        a == b,
{
    typed_keys_round_trip(a);
    typed_keys_round_trip(b);
}

/// The table of a key is the one it names; a key of Redis and a key that is not
/// typed have none. Two keys say the same only if they agree in all they hold.
pub proof fn keys_name_their_tables(k: StateKeyView, a: StateKey, b: StateKey)
    ensures
        k matches StateKeyView::DbRow { table, .. } ==> table_of(k) == Some(table),
        k matches StateKeyView::DbQuery { table, .. } ==> table_of(k) == Some(table),
        k is RedisKey || k is Opaque ==> table_of(k) is None,
        a@ == b@ <==> match (a, b) {
            (StateKey::Opaque(s), StateKey::Opaque(t)) => s@ == t@,
            (
                StateKey::DbRow { table: s, pk_column: c, pk_value: v },
                StateKey::DbRow { table: t, pk_column: d, pk_value: w },
            ) => s@ == t@ && c@ == d@ && v@ == w@,
            (
                StateKey::DbQuery { table: s, fingerprint: f },
                StateKey::DbQuery { table: t, fingerprint: g },
            ) => s@ == t@ && f@ == g@,
            (StateKey::RedisKey { key: s }, StateKey::RedisKey { key: t }) => s@ == t@,
            _ => false,
        },
{
}

/// A hexadecimal digit is read alike in either case, and nothing else is one.
pub proof fn digits_are_read_in_either_case(b: u8, d: u8)
    requires
        d < 16,
    ensures
        d < 10 ==> nibble((48 + d) as u8) == Some(d),
        d >= 10 ==> nibble((87 + d) as u8) == Some(d) && nibble((55 + d) as u8) == Some(d),
        nibble(b) is Some ==> 48 <= b <= 57 || 65 <= b <= 70 || 97 <= b <= 102,
        nibble(b) matches Some(n) ==> n < 16,
{
}

/// Texts that write one key have one form, and a text that writes no key keeps its
/// own: the form of a text is the wire of the key it writes.
pub proof fn one_key_has_one_form(a: Seq<char>, b: Seq<char>)
    ensures
        key_of(a) is Ok && key_of(a) == key_of(b) ==> canonical(a) == canonical(b),
        key_of(a) matches Ok(k) ==> canonical(a) == wire_of(k),
        key_of(a) is Err ==> canonical(a) == a,
{
}

/// A component is refused for what is wrong with it: an odd number of digits, a
/// byte that is no digit, or digits that write no text; any other is read.
pub proof fn components_are_refused_for_a_reason(component: Seq<char>)
    ensures
        ({
            let digits = encode_utf8(component);
            let all_hex = forall|i: int|
                0 <= i < digits.len() ==> nibble(#[trigger] digits[i]) is Some;
            &&& digits.len() % 2 != 0 ==> decoded(component) == Err::<Seq<char>, Seq<char>>(
                "hex component has odd length"@,
            )
            &&& digits.len() % 2 == 0 && !all_hex ==> decoded(component) == Err::<
                Seq<char>,
                Seq<char>,
            >("hex component contains non-hex digit"@)
            &&& digits.len() % 2 == 0 && all_hex && !valid_utf8(unhexed(digits)) ==> decoded(
                component,
            ) == Err::<Seq<char>, Seq<char>>("hex component is not utf-8"@)
            &&& digits.len() % 2 == 0 && all_hex && valid_utf8(unhexed(digits)) ==> decoded(
                component,
            ) == Ok::<Seq<char>, Seq<char>>(decode_utf8(unhexed(digits)))
        }),
{
    reveal(decoded);
}

/// A text without the prefix of typed keys is a key of its own; one that has the
/// prefix and no separator behind it is refused; and one with a kind or a number of
/// parts that no typed key has is a key of its own.
pub proof fn texts_that_are_not_typed_stay_whole(wire: Seq<char>)
    ensures
        !"deja:state:v1"@.is_prefix_of(wire) ==> key_of(wire) == Ok::<StateKeyView, Seq<char>>(
            StateKeyView::Opaque(wire),
        ),
        wire == "deja:state:v1"@ ==> key_of(wire) == Err::<StateKeyView, Seq<char>>(
            "typed state key missing kind separator"@,
        ),
        "deja:state:v1"@.is_prefix_of(wire) && wire.len() > "deja:state:v1"@.len()
            && wire["deja:state:v1"@.len() as int] != ':' ==> key_of(wire) == Err::<
            StateKeyView,
            Seq<char>,
        >("typed state key missing kind separator"@),
        "deja:state:v1"@.is_prefix_of(wire) && wire.len() > "deja:state:v1"@.len()
            && wire["deja:state:v1"@.len() as int] == ':' ==> {
            let n = "deja:state:v1"@.len() as int;
            let parts = split_on(wire.subrange(n + 1, wire.len() as int), ':');
            parts[0] != "db_row"@ && parts[0] != "db_query"@ && parts[0] != "redis"@ ==> key_of(
                wire,
            ) == Ok::<StateKeyView, Seq<char>>(StateKeyView::Opaque(wire))
        },
{
}

} // verus!
