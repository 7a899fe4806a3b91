//! The state keys of database rows and queries.

use vstd::prelude::*;
use vstd::utf8::{char_is_scalar, encode_scalar, encode_utf8};
use crate::args_hash::{exact_hash, hash_value};
use crate::exact_bytes::{
    bytes_of_a_scalar, earlier_hashes_stay_apart, exact_bytes, tails_of_one_front,
    the_hash_reads_the_bytes,
};
use crate::fnv::{fnv, fnv1a_byte, fnv1a_bytes, fnv_of_two_runs, FNV_OFFSET_BASIS};
use crate::json::{
    found_stands_under_its_key, group_json_view, item_is_smaller, items_view, render_json,
    rendered_json, Json, JsonView,
};
use crate::state_key::{table_of, StateKey, StateKeyView};
use crate::text::{
    encoding_is_injective, hex_chars, hex_of_bytes, hexadecimal_is_told_apart, text_eq,
};

verus! {

/// The eight bytes of a number, highest first.
pub open spec fn be_bytes(n: u64) -> Seq<u8> {
    seq![
        ((n >> 56) & 0xff) as u8,
        ((n >> 48) & 0xff) as u8,
        ((n >> 40) & 0xff) as u8,
        ((n >> 32) & 0xff) as u8,
        ((n >> 24) & 0xff) as u8,
        ((n >> 16) & 0xff) as u8,
        ((n >> 8) & 0xff) as u8,
        (n & 0xff) as u8,
    ]
}

/// Sixteen hexadecimal digits of a number.
fn hex_of_u64(n: u64) -> (r: String)
    ensures
        r@ == hex_chars(be_bytes(n)),
{
    let bytes: [u8; 8] = [
        ((n >> 56) & 0xff) as u8,
        ((n >> 48) & 0xff) as u8,
        ((n >> 40) & 0xff) as u8,
        ((n >> 32) & 0xff) as u8,
        ((n >> 24) & 0xff) as u8,
        ((n >> 16) & 0xff) as u8,
        ((n >> 8) & 0xff) as u8,
        (n & 0xff) as u8,
    ];
    proof {
        assert(bytes@ =~= be_bytes(n));
    }
    hex_of_bytes(bytes.as_slice())
}

/// What is hashed of a query before its inputs: the texts, each closed by a
/// zero byte.
pub open spec fn query_bytes(operation: Seq<char>, table: Seq<char>, sql: Seq<char>) -> Seq<u8> {
    encode_utf8("db-query-v1"@) + encode_utf8(operation).push(0) + encode_utf8(table).push(0)
        + encode_utf8(sql).push(0)
}

/// The fingerprint of a query.
pub open spec fn fingerprint_of(
    operation: Seq<char>,
    table: Seq<char>,
    sql: Seq<char>,
    inputs: JsonView,
) -> Seq<char> {
    hex_chars(
        be_bytes(exact_hash(fnv(FNV_OFFSET_BASIS, query_bytes(operation, table, sql)), inputs)),
    )
}

/// Mixes a text closed by a zero byte into a hash.
fn hash_closed(hash: u64, text: &str) -> (r: u64)
    ensures
        r == fnv(hash, encode_utf8(text@).push(0)),
{
    let h: u64 = fnv1a_bytes(hash, text.as_bytes());
    proof {
        fnv_of_two_runs(hash, encode_utf8(text@), seq![0u8]);
        assert(encode_utf8(text@) + seq![0u8] =~= encode_utf8(text@).push(0));
    }
    fnv1a_byte(h, 0)
}

/// The fingerprint of a query: the same in every build.
pub fn db_query_fingerprint(operation: &str, table: &str, sql: &str, inputs: &Json) -> (r: String)
    ensures
        r@ == fingerprint_of(operation@, table@, sql@, inputs@),
{
    let a: u64 = fnv1a_bytes(FNV_OFFSET_BASIS, "db-query-v1".as_bytes());
    let b: u64 = hash_closed(a, operation);
    let c: u64 = hash_closed(b, table);
    let d: u64 = hash_closed(c, sql);
    proof {
        let start = encode_utf8("db-query-v1"@);
        let o = encode_utf8(operation@).push(0);
        let t = encode_utf8(table@).push(0);
        let s = encode_utf8(sql@).push(0);
        fnv_of_two_runs(FNV_OFFSET_BASIS, start, o);
        fnv_of_two_runs(FNV_OFFSET_BASIS, start + o, t);
        fnv_of_two_runs(FNV_OFFSET_BASIS, start + o + t, s);
    }
    hex_of_u64(hash_value(d, inputs))
}

/// The key of a query.
pub fn db_query_state_key(operation: &str, table: &str, sql: &str, inputs: &Json) -> (r: StateKey)
    ensures
        r@ == (StateKeyView::DbQuery {
            table: table@,
            fingerprint: fingerprint_of(operation@, table@, sql@, inputs@),
        }),
{
    StateKey::DbQuery {
        table: table.to_owned(),
        fingerprint: db_query_fingerprint(operation, table, sql, inputs),
    }
}

/// The table that a database event's arguments name.
pub open spec fn named_table(args: JsonView) -> Option<Seq<char>> {
    match args.member("table"@) {
        Some(v) => v.text(),
        None => None,
    }
}

/// The table that a database event's arguments name.
pub fn db_table_from_event_args(args: &Json) -> (r: Option<&str>)
    ensures
        r.deep_view() == named_table(args@),
{
    match args.get("table") {
        Some(v) => v.as_str(),
        None => None,
    }
}

/// The primary-key column of the tables whose rows it identifies. Other tables
/// have none here, so their rows are never grouped by a merely common column.
pub open spec fn pk_column(table: Seq<char>) -> Option<Seq<char>> {
    if table == "payment_attempt"@ {
        Some("attempt_id"@)
    } else if table == "payment_intent"@ {
        Some("payment_id"@)
    } else if table == "merchant_account"@ || table == "merchant_key_store"@ {
        Some("merchant_id"@)
    } else if table == "business_profile"@ {
        Some("profile_id"@)
    } else if table == "merchant_connector_account"@ {
        Some("merchant_connector_id"@)
    } else if table == "customers"@ {
        Some("customer_id"@)
    } else if table == "organization"@ || table == "organizations"@ {
        Some("organization_id"@)
    } else if table == "users"@ {
        Some("user_id"@)
    } else if table == "api_keys"@ {
        Some("key_id"@)
    } else if table == "user_authentication_methods"@ {
        Some("id"@)
    } else {
        None
    }
}

fn known_pk_column(table: &str) -> (r: Option<&'static str>)
    ensures
        r.deep_view() == pk_column(table@),
{
    if text_eq(table, "payment_attempt") {
        Some("attempt_id")
    } else if text_eq(table, "payment_intent") {
        Some("payment_id")
    } else if text_eq(table, "merchant_account") || text_eq(table, "merchant_key_store") {
        Some("merchant_id")
    } else if text_eq(table, "business_profile") {
        Some("profile_id")
    } else if text_eq(table, "merchant_connector_account") {
        Some("merchant_connector_id")
    } else if text_eq(table, "customers") {
        Some("customer_id")
    } else if text_eq(table, "organization") || text_eq(table, "organizations") {
        Some("organization_id")
    } else if text_eq(table, "users") {
        Some("user_id")
    } else if text_eq(table, "api_keys") {
        Some("key_id")
    } else if text_eq(table, "user_authentication_methods") {
        Some("id")
    } else {
        None
    }
}

/// The primary-key column of a row: the table's, where the row has a value in
/// it.
pub open spec fn row_pk_column(table: Seq<char>, row: JsonView) -> Option<Seq<char>> {
    match pk_column(table) {
        Some(column) => match row.member(column) {
            Some(JsonView::Null) => None,
            Some(_) => Some(column),
            None => None,
        },
        None => None,
    }
}

/// The primary-key column of a row: the table's, where the row has a value in
/// it.
pub fn db_pk_column_for_table(table: &str, row: &Json) -> (r: Option<&'static str>)
    ensures
        r.deep_view() == row_pk_column(table@, row@),
{
    match known_pk_column(table) {
        Some(column) => match row.get(column) {
            Some(value) => if value.is_null() {
                None
            } else {
                Some(column)
            },
            None => None,
        },
        None => None,
    }
}

/// A primary-key value in a key: the text of a string, and any other value as
/// JSON.
pub open spec fn pk_text(value: JsonView) -> Seq<char> {
    match value {
        JsonView::String(s) => s,
        _ => rendered_json(value),
    }
}

/// A primary-key value in a key.
pub fn db_pk_wire_value(value: &Json) -> (r: String)
    ensures
        r@ == pk_text(value@),
{
    match value {
        Json::String(s) => s.clone(),
        _ => render_json(value),
    }
}

/// The key of a row.
pub open spec fn row_key(table: Seq<char>, row: JsonView) -> Option<StateKeyView> {
    match row_pk_column(table, row) {
        Some(column) => Some(
            StateKeyView::DbRow {
                table,
                pk_column: column,
                pk_value: pk_text(row.member(column)->0),
            },
        ),
        None => None,
    }
}

/// The key of a row, where the table's primary-key column is known and the row
/// has a value in it.
pub fn db_row_state_key(table: &str, row: &Json) -> (r: Option<StateKey>)
    ensures
        match r {
            Some(k) => row_key(table@, row@) == Some(k@),
            None => row_key(table@, row@) is None,
        },
{
    match db_pk_column_for_table(table, row) {
        Some(column) => match row.get(column) {
            Some(value) => Some(
                StateKey::DbRow {
                    table: table.to_owned(),
                    pk_column: column.to_owned(),
                    pk_value: db_pk_wire_value(value),
                },
            ),
            None => None,
        },
        None => None,
    }
}

/// What the keys say.
pub open spec fn key_views(s: Seq<StateKey>) -> Seq<StateKeyView> {
    s.map_values(|k: StateKey| k@)
}

/// The value a result envelope carries under `result: "Ok"`.
pub open spec fn tagged_ok(v: JsonView) -> Option<JsonView> {
    match v.member("result"@) {
        Some(t) => if t == JsonView::String("Ok"@) {
            v.member("value"@)
        } else {
            None
        },
        None => None,
    }
}

/// The keys of the rows in a value: of a row, of each row in an array, and of
/// the rows in the `Ok` of a result, in that order.
pub open spec fn row_keys(table: Seq<char>, v: JsonView) -> Seq<StateKeyView>
    decreases v.size(), 1nat, 0nat,
{
    match row_key(table, v) {
        Some(k) => seq![k],
        None => match v {
            JsonView::Array(s) => item_row_keys(table, s, s.len()),
            JsonView::Object(_) => {
                let tagged = match tagged_ok(v) {
                    Some(inner) => if inner.size() < v.size() {
                        row_keys(table, inner)
                    } else {
                        Seq::empty()
                    },
                    None => Seq::empty(),
                };
                let plain = match v.member("Ok"@) {
                    Some(inner) => if inner.size() < v.size() {
                        row_keys(table, inner)
                    } else {
                        Seq::empty()
                    },
                    None => Seq::empty(),
                };
                tagged + plain
            },
            _ => Seq::empty(),
        },
    }
}

/// The keys of the rows in the first `n` members of an array.
pub open spec fn item_row_keys(table: Seq<char>, s: Seq<JsonView>, n: nat) -> Seq<StateKeyView>
    decreases JsonView::Array(s).size(), 0nat, n,
{
    if n == 0 {
        Seq::empty()
    } else {
        item_row_keys(table, s, (n - 1) as nat) + if s[n - 1].size() < JsonView::Array(s).size() {
            row_keys(table, s[n - 1])
        } else {
            Seq::empty()
        }
    }
}

#[verifier::loop_isolation(false)]
fn visit_rows(table: &str, value: &Json, keys: &mut Vec<StateKey>)
    ensures
        key_views(final(keys)@) == key_views(old(keys)@) + row_keys(table@, value@),
    decreases value@.size(),
{
    broadcast use group_json_view;

    let ghost before = key_views(keys@);
    if let Some(key) = db_row_state_key(table, value) {
        let ghost was = keys@;
        keys.push(key);
        proof {
            assert(key_views(keys@) =~= key_views(was) + seq![key@]);
        }
        return;
    }
    match value {
        Json::Array(items) => {
            let ghost all = items_view(items@);
            let mut i: usize = 0;
            proof {
                assert(before + Seq::<StateKeyView>::empty() =~= before);
            }
            while i < items.len()
                invariant
                    0 <= i <= items@.len(),
                    key_views(keys@) == before + item_row_keys(table@, all, i as nat),
                decreases items@.len() - i,
            {
                let ghost done = item_row_keys(table@, all, i as nat);
                proof {
                    item_is_smaller(all, i as int);
                }
                visit_rows(table, &items[i], keys);
                proof {
                    let more = row_keys(table@, all[i as int]);
                    assert(before + done + more =~= before + (done + more));
                }
                i = i + 1;
            }
        },
        Json::Object(_) => {
            let tagged = match value.get("result") {
                Some(t) => if t.is_text("Ok") {
                    value.get("value")
                } else {
                    None
                },
                None => None,
            };
            if let Some(inner) = tagged {
                visit_rows(table, inner, keys);
            } else {
                proof {
                    assert(before + Seq::<StateKeyView>::empty() =~= before);
                }
            }
            let ghost first = match tagged_ok(value@) {
                Some(inner) => row_keys(table@, inner),
                None => Seq::empty(),
            };
            assert(key_views(keys@) == before + first);
            if let Some(inner) = value.get("Ok") {
                visit_rows(table, inner, keys);
                proof {
                    let second = row_keys(table@, inner@);
                    assert(before + first + second =~= before + (first + second));
                }
            } else {
                proof {
                    assert(first + Seq::<StateKeyView>::empty() =~= first);
                }
            }
        },
        _ => {
            proof {
                assert(before + Seq::<StateKeyView>::empty() =~= before);
            }
        },
    }
}

/// The keys of all rows that a database result carries.
pub fn db_row_state_keys(table: &str, value: &Json) -> (r: Vec<StateKey>)
    ensures
        key_views(r@) == row_keys(table@, value@),
{
    let mut keys: Vec<StateKey> = Vec::new();
    let ghost none = key_views(keys@);
    visit_rows(table, value, &mut keys);
    proof {
        assert(none + row_keys(table@, value@) =~= row_keys(table@, value@));
    }
    keys
}

/// Every row key is a key of the table that was asked for, and a table whose
/// primary key is not known gives none.
pub proof fn row_keys_belong_to_the_table(table: Seq<char>, v: JsonView)
    ensures
        forall|i: int|
            0 <= i < row_keys(table, v).len() ==> (#[trigger] row_keys(table, v)[i]) is DbRow
                && table_of(row_keys(table, v)[i]) == Some(table),
        pk_column(table) is None ==> row_keys(table, v).len() == 0,
    decreases v.size(), 1nat, 0nat,
{
    if row_key(table, v) is None {
        match v {
            JsonView::Array(s) => {
                item_row_keys_belong_to_the_table(table, s, s.len());
            },
            JsonView::Object(_) => {
                if let Some(inner) = tagged_ok(v) {
                    if inner.size() < v.size() {
                        row_keys_belong_to_the_table(table, inner);
                    }
                }
                if let Some(inner) = v.member("Ok"@) {
                    if inner.size() < v.size() {
                        row_keys_belong_to_the_table(table, inner);
                    }
                }
            },
            _ => {},
        }
    }
}

proof fn item_row_keys_belong_to_the_table(table: Seq<char>, s: Seq<JsonView>, n: nat)
    ensures
        forall|i: int|
            0 <= i < item_row_keys(table, s, n).len() ==> (#[trigger] item_row_keys(
                table,
                s,
                n,
            )[i]) is DbRow && table_of(item_row_keys(table, s, n)[i]) == Some(table),
        pk_column(table) is None ==> item_row_keys(table, s, n).len() == 0,
    decreases JsonView::Array(s).size(), 0nat, n,
{
    if n > 0 {
        item_row_keys_belong_to_the_table(table, s, (n - 1) as nat);
        if s[n - 1].size() < JsonView::Array(s).size() {
            row_keys_belong_to_the_table(table, s[n - 1]);
        }
    }
}

/// The key of one row of a table whose primary key is known: the table, its
/// column, and what the row holds there, a text as it stands.
pub proof fn a_row_is_keyed_by_its_primary_key(
    table: Seq<char>,
    column: Seq<char>,
    row: JsonView,
    value: JsonView,
)
    requires
        pk_column(table) == Some(column),
        row.member(column) == Some(value),
        !(value is Null),
    ensures
        row_key(table, row) matches Some(StateKeyView::DbRow {
            table: t,
            pk_column: c,
            pk_value: v,
        }) && t == table && c == column && (value matches JsonView::String(s) ==> v == s) && (!(
        value is String) ==> v == rendered_json(value)),
        row_keys(table, row).len() == 1,
        row_keys(table, row)[0] == row_key(table, row)->0,
{
}

proof fn keys_of_keyed_rows(table: Seq<char>, column: Seq<char>, rows: Seq<JsonView>, n: nat)
    requires
        pk_column(table) == Some(column),
        n <= rows.len(),
        forall|i: int|
            0 <= i < rows.len() ==> (#[trigger] rows[i]).member(column) is Some && !(rows[i].member(
                column,
            )->0 is Null),
    ensures
        item_row_keys(table, rows, n).len() == n,
        forall|i: int|
            0 <= i < n ==> #[trigger] item_row_keys(table, rows, n)[i] == (StateKeyView::DbRow {
                table,
                pk_column: column,
                pk_value: pk_text(rows[i].member(column)->0),
            }),
    decreases n,
{
    if n > 0 {
        keys_of_keyed_rows(table, column, rows, (n - 1) as nat);
        item_is_smaller(rows, n - 1);
        a_row_is_keyed_by_its_primary_key(
            table,
            column,
            rows[n - 1],
            rows[n - 1].member(column)->0,
        );
    }
}

/// The keys of an array of rows of a table whose primary key is known, each of
/// which has a value there, are as many as the rows, and stand in their order:
/// each is the key of the row at its place.
pub proof fn rows_are_keyed_one_by_one(table: Seq<char>, column: Seq<char>, rows: Seq<JsonView>)
    requires
        pk_column(table) == Some(column),
        forall|i: int|
            0 <= i < rows.len() ==> (#[trigger] rows[i]).member(column) is Some && !(rows[i].member(
                column,
            )->0 is Null),
    ensures
        row_keys(table, JsonView::Array(rows)).len() == rows.len(),
        forall|i: int|
            0 <= i < rows.len() ==> #[trigger] row_keys(table, JsonView::Array(rows))[i] == (
            StateKeyView::DbRow {
                table,
                pk_column: column,
                pk_value: pk_text(rows[i].member(column)->0),
            }),
{
    keys_of_keyed_rows(table, column, rows, rows.len());
}

proof fn item_keys_of_two_runs(table: Seq<char>, a: Seq<JsonView>, b: Seq<JsonView>, n: nat)
    requires
        n <= b.len(),
    ensures
        item_row_keys(table, a + b, a.len() + n) == item_row_keys(table, a, a.len())
            + item_row_keys(table, b, n),
    decreases n,
{
    let all = a + b;
    if n == 0 {
        item_keys_of_a_run(table, a, all, a.len());
        assert(item_row_keys(table, b, 0) =~= Seq::<StateKeyView>::empty());
    } else {
        item_keys_of_two_runs(table, a, b, (n - 1) as nat);
        item_is_smaller(all, a.len() + n - 1);
        item_is_smaller(b, n - 1);
        assert(all[a.len() + n - 1] == b[n - 1]);
        let last = row_keys(table, b[n - 1]);
        let front = item_row_keys(table, a, a.len());
        assert(item_row_keys(table, b, n) == item_row_keys(table, b, (n - 1) as nat) + last);
        assert(item_row_keys(table, all, a.len() + n) == item_row_keys(
            table,
            all,
            (a.len() + n - 1) as nat,
        ) + last);
        assert(front + item_row_keys(table, b, (n - 1) as nat) + last =~= front + (item_row_keys(
            table,
            b,
            (n - 1) as nat,
        ) + last));
    }
}

proof fn item_keys_of_a_run(table: Seq<char>, a: Seq<JsonView>, all: Seq<JsonView>, n: nat)
    requires
        n <= a.len() <= all.len(),
        forall|i: int| 0 <= i < a.len() ==> a[i] == #[trigger] all[i],
    ensures
        item_row_keys(table, all, n) == item_row_keys(table, a, n),
    decreases n,
{
    if n > 0 {
        item_keys_of_a_run(table, a, all, (n - 1) as nat);
        item_is_smaller(all, n - 1);
        item_is_smaller(a, n - 1);
    }
}

/// The keys of two arrays put together are the keys of the first and then those
/// of the second, and an array of one value has the keys of the value: no member
/// of an array is left out, whatever the others hold.
pub proof fn arrays_are_keyed_member_by_member(
    table: Seq<char>,
    a: Seq<JsonView>,
    b: Seq<JsonView>,
    one: JsonView,
)
    ensures
        row_keys(table, JsonView::Array(a + b)) == row_keys(table, JsonView::Array(a)) + row_keys(
            table,
            JsonView::Array(b),
        ),
        row_keys(table, JsonView::Array(seq![one])) == row_keys(table, one),
        row_keys(table, JsonView::Array(Seq::empty())).len() == 0,
{
    item_keys_of_two_runs(table, a, b, b.len());
    assert(item_row_keys(table, Seq::<JsonView>::empty(), 0).len() == 0);
    let s = seq![one];
    item_is_smaller(s, 0);
    assert(item_row_keys(table, s, 0) =~= Seq::<StateKeyView>::empty());
    assert(item_row_keys(table, s, 1) == item_row_keys(table, s, 0) + row_keys(table, s[0]));
    assert(Seq::<StateKeyView>::empty() + row_keys(table, one) =~= row_keys(table, one));
}

/// The rows in a success are keyed as they are on their own, in either of the
/// two shapes of a success; and a failure has no keys.
pub proof fn successes_are_keyed_by_what_they_carry(table: Seq<char>, v: JsonView, inner: JsonView)
    requires
        v is Object,
        row_key(table, v) is None,
    ensures
        v.member("Ok"@) == Some(inner) && v.member("result"@) is None ==> row_keys(table, v)
            == row_keys(table, inner),
        v.member("result"@) == Some(JsonView::String("Ok"@)) && v.member("value"@) == Some(inner)
            && v.member("Ok"@) is None ==> row_keys(table, v) == row_keys(table, inner),
        v.member("Ok"@) is None && v.member("result"@) != Some(JsonView::String("Ok"@))
            ==> row_keys(table, v).len() == 0,
{
    if v.member("Ok"@) == Some(inner) {
        let _i = found_stands_under_its_key(v->Object_0, "Ok"@);
    }
    if v.member("value"@) == Some(inner) {
        let _i = found_stands_under_its_key(v->Object_0, "value"@);
    }
    let none = Seq::<StateKeyView>::empty();
    assert(none + row_keys(table, inner) =~= row_keys(table, inner));
    assert(row_keys(table, inner) + none =~= row_keys(table, inner));
}

/// The tables whose primary key is known, each with its column.
pub proof fn the_known_primary_keys()
    ensures
        pk_column("payment_attempt"@) == Some("attempt_id"@),
        pk_column("payment_intent"@) == Some("payment_id"@),
        pk_column("merchant_account"@) == Some("merchant_id"@),
        pk_column("merchant_key_store"@) == Some("merchant_id"@),
        pk_column("business_profile"@) == Some("profile_id"@),
        pk_column("merchant_connector_account"@) == Some("merchant_connector_id"@),
        pk_column("customers"@) == Some("customer_id"@),
        pk_column("organization"@) == Some("organization_id"@),
        pk_column("organizations"@) == Some("organization_id"@),
        pk_column("users"@) == Some("user_id"@),
        pk_column("api_keys"@) == Some("key_id"@),
        pk_column("user_authentication_methods"@) == Some("id"@),
{
    reveal_strlit("payment_attempt");
    reveal_strlit("payment_intent");
    reveal_strlit("merchant_account");
    reveal_strlit("merchant_key_store");
    reveal_strlit("business_profile");
    reveal_strlit("merchant_connector_account");
    reveal_strlit("customers");
    reveal_strlit("organization");
    reveal_strlit("organizations");
    reveal_strlit("users");
    reveal_strlit("api_keys");
    reveal_strlit("user_authentication_methods");
    assert("payment_attempt"@.len() == 15);
    assert("payment_intent"@.len() == 14);
    assert("merchant_account"@.len() == 16);
    assert("merchant_key_store"@.len() == 18);
    assert("business_profile"@.len() == 16);
    assert("merchant_connector_account"@.len() == 26);
    assert("customers"@.len() == 9);
    assert("organization"@.len() == 12);
    assert("organizations"@.len() == 13);
    assert("users"@.len() == 5);
    assert("api_keys"@.len() == 8);
    assert("user_authentication_methods"@.len() == 27);
    assert("business_profile"@[0] == 'b');
    assert("merchant_account"@[0] == 'm');
}

/// The numbers that are written as one fingerprint are one number.
proof fn highest_first_is_told_apart(n: u64, m: u64)
    requires
        be_bytes(n) == be_bytes(m),
    ensures
        n == m,
{
    assert(be_bytes(n)[0] == be_bytes(m)[0]);
    assert(be_bytes(n)[1] == be_bytes(m)[1]);
    assert(be_bytes(n)[2] == be_bytes(m)[2]);
    assert(be_bytes(n)[3] == be_bytes(m)[3]);
    assert(be_bytes(n)[4] == be_bytes(m)[4]);
    assert(be_bytes(n)[5] == be_bytes(m)[5]);
    assert(be_bytes(n)[6] == be_bytes(m)[6]);
    assert(be_bytes(n)[7] == be_bytes(m)[7]);
    assert(n == m) by (bit_vector)
        requires
            (n & 0xff) as u8 == (m & 0xff) as u8,
            ((n >> 8) & 0xff) as u8 == ((m >> 8) & 0xff) as u8,
            ((n >> 16) & 0xff) as u8 == ((m >> 16) & 0xff) as u8,
            ((n >> 24) & 0xff) as u8 == ((m >> 24) & 0xff) as u8,
            ((n >> 32) & 0xff) as u8 == ((m >> 32) & 0xff) as u8,
            ((n >> 40) & 0xff) as u8 == ((m >> 40) & 0xff) as u8,
            ((n >> 48) & 0xff) as u8 == ((m >> 48) & 0xff) as u8,
            ((n >> 56) & 0xff) as u8 == ((m >> 56) & 0xff) as u8,
    ;
}

/// A fingerprint loses nothing of the hash it is written from, and that hash
/// nothing of what was mixed in before the inputs: queries with the same inputs
/// have one fingerprint only if their operation, table and statement hash alike,
/// and a query has one fingerprint under two inputs only if those hash alike.
pub proof fn fingerprints_keep_hashes_apart(
    operation: Seq<char>,
    table: Seq<char>,
    sql: Seq<char>,
    other_operation: Seq<char>,
    other_table: Seq<char>,
    other_sql: Seq<char>,
    inputs: JsonView,
    other_inputs: JsonView,
)
    ensures
        fingerprint_of(operation, table, sql, inputs) == fingerprint_of(
            other_operation,
            other_table,
            other_sql,
            inputs,
        ) ==> fnv(FNV_OFFSET_BASIS, query_bytes(operation, table, sql)) == fnv(
            FNV_OFFSET_BASIS,
            query_bytes(other_operation, other_table, other_sql),
        ),
        fingerprint_of(operation, table, sql, inputs) == fingerprint_of(
            operation,
            table,
            sql,
            other_inputs,
        ) ==> ({
            let before = fnv(FNV_OFFSET_BASIS, query_bytes(operation, table, sql));
            fnv(before, exact_bytes(inputs)) == fnv(before, exact_bytes(other_inputs))
        }),
        fingerprint_of(operation, table, sql, inputs).len() == 16,
{
    let a = fnv(FNV_OFFSET_BASIS, query_bytes(operation, table, sql));
    let b = fnv(FNV_OFFSET_BASIS, query_bytes(other_operation, other_table, other_sql));
    let x = exact_hash(a, inputs);
    let y = exact_hash(b, inputs);
    let z = exact_hash(a, other_inputs);
    hexadecimal_is_told_apart(be_bytes(x), be_bytes(y));
    hexadecimal_is_told_apart(be_bytes(x), be_bytes(z));
    if fingerprint_of(operation, table, sql, inputs) == fingerprint_of(
        other_operation,
        other_table,
        other_sql,
        inputs,
    ) {
        highest_first_is_told_apart(x, y);
        earlier_hashes_stay_apart(a, b, inputs);
    }
    if fingerprint_of(operation, table, sql, inputs) == fingerprint_of(
        operation,
        table,
        sql,
        other_inputs,
    ) {
        highest_first_is_told_apart(x, z);
        the_hash_reads_the_bytes(a, inputs);
        the_hash_reads_the_bytes(a, other_inputs);
    }
}

/// Queries of different operations, on different tables or by different statements
/// are hashed from different bytes, as long as no operation and no table holds the
/// character that closes it.
pub proof fn queries_are_told_apart(
    operation: Seq<char>,
    table: Seq<char>,
    sql: Seq<char>,
    other_operation: Seq<char>,
    other_table: Seq<char>,
    other_sql: Seq<char>,
)
    requires
        forall|i: int| 0 <= i < operation.len() ==> (#[trigger] operation[i]) as u32 != 0,
        forall|i: int| 0 <= i < table.len() ==> (#[trigger] table[i]) as u32 != 0,
        forall|i: int| 0 <= i < other_operation.len() ==> (#[trigger] other_operation[i]) as u32 != 0,
        forall|i: int| 0 <= i < other_table.len() ==> (#[trigger] other_table[i]) as u32 != 0,
        query_bytes(operation, table, sql) == query_bytes(other_operation, other_table, other_sql),
    ensures
        operation == other_operation,
        table == other_table,
        sql == other_sql,
{
    let start = encode_utf8("db-query-v1"@);
    let o = encode_utf8(operation).push(0);
    let t = encode_utf8(table).push(0);
    let s = encode_utf8(sql).push(0);
    let p = encode_utf8(other_operation).push(0);
    let u = encode_utf8(other_table).push(0);
    let v = encode_utf8(other_sql).push(0);
    assert(query_bytes(operation, table, sql) =~= start + (o + (t + s)));
    assert(query_bytes(other_operation, other_table, other_sql) =~= start + (p + (u + v)));
    tails_of_one_front(start, o + (t + s), p + (u + v));
    zero_closed_texts_are_told_apart(operation, other_operation, t + s, u + v);
    zero_closed_texts_are_told_apart(table, other_table, s, v);
    assert(encode_utf8(sql) =~= s.drop_last());
    assert(encode_utf8(other_sql) =~= v.drop_last());
    encoding_is_injective(sql, other_sql);
}

proof fn zero_closed_texts_are_told_apart(
    s: Seq<char>,
    t: Seq<char>,
    x: Seq<u8>,
    y: Seq<u8>,
)
    requires
        forall|i: int| 0 <= i < s.len() ==> (#[trigger] s[i]) as u32 != 0,
        forall|i: int| 0 <= i < t.len() ==> (#[trigger] t[i]) as u32 != 0,
        encode_utf8(s).push(0) + x == encode_utf8(t).push(0) + y,
    ensures
        s == t,
        x == y,
{
    no_zero_in(s);
    no_zero_in(t);
    let a = encode_utf8(s);
    let b = encode_utf8(t);
    let p = a.push(0) + x;
    let q = b.push(0) + y;
    assert(p[a.len() as int] == 0);
    assert(q[b.len() as int] == 0);
    if a.len() < b.len() {
        assert(q[a.len() as int] == b[a.len() as int]);
    }
    if b.len() < a.len() {
        assert(p[b.len() as int] == a[b.len() as int]);
    }
    assert(a =~= b) by {
        assert forall|i: int| 0 <= i < a.len() implies a[i] == b[i] by {
            assert(p[i] == a[i]);
            assert(q[i] == b[i]);
        }
    }
    encoding_is_injective(s, t);
    tails_of_one_front(a.push(0), x, y);
}

proof fn no_zero_in(s: Seq<char>)
    requires
        forall|i: int| 0 <= i < s.len() ==> (#[trigger] s[i]) as u32 != 0,
    ensures
        forall|i: int| 0 <= i < encode_utf8(s).len() ==> #[trigger] encode_utf8(s)[i] != 0,
    decreases s.len(),
{
    if s.len() > 0 {
        let rest = s.drop_first();
        assert forall|i: int| 0 <= i < rest.len() implies (#[trigger] rest[i]) as u32 != 0 by {
            assert(s[i + 1] as u32 != 0);
        }
        char_is_scalar(s[0]);
        bytes_of_a_scalar(s[0] as u32);
        no_zero_in(rest);
        let a = encode_scalar(s[0] as u32);
        let b = encode_utf8(rest);
        assert forall|i: int| 0 <= i < encode_utf8(s).len() implies #[trigger] encode_utf8(s)[i]
            != 0 by {
            if i < a.len() {
                assert(encode_utf8(s)[i] == a[i]);
            } else {
                assert(encode_utf8(s)[i] == b[i - a.len()]);
            }
        }
    }
}

/// The table that arguments name is the text under `table`, and no other value
/// names one.
pub proof fn tables_are_named_by_a_text(args: JsonView)
    ensures
        args.member("table"@) matches Some(JsonView::String(t)) ==> named_table(args) == Some(t),
        args.member("table"@) is None ==> named_table(args) is None,
        args.member("table"@) is Some && !(args.member("table"@)->0 is String) ==> named_table(
            args,
        ) is None,
{
}

} // verus!
