//! Cookie stores as rows, the records they decode to, and the lookup of one
//! cookie by domain and name.

use crate::error::RemoteError;
use crate::vault::{spec_decrypt_value, CipherKey, CipherParams, DecodeError};
use vstd::prelude::*;

verus! {

/// One decoded cookie.
#[derive(Clone, Debug, PartialEq, Eq)]
pub struct CookieRecord {
    pub domain: String,
    pub path: String,
    pub name: String,
    pub value: String,
    pub secure: bool,
}

/// A cookie as plain text and a flag.
pub struct CookieRecordView {
    pub domain: Seq<char>,
    pub path: Seq<char>,
    pub name: Seq<char>,
    pub value: Seq<char>,
    pub secure: bool,
}

impl View for CookieRecord {
    type V = CookieRecordView;

    open spec fn view(&self) -> CookieRecordView {
        CookieRecordView {
            domain: self.domain@,
            path: self.path@,
            name: self.name@,
            value: self.value@,
            secure: self.secure,
        }
    }
}

/// The views of a sequence of records, in the same order.
pub open spec fn record_views(records: Seq<CookieRecord>) -> Seq<CookieRecordView> {
    records.map_values(|record: CookieRecord| record@)
}

/// A row of a store that keeps its values in plain text.
#[derive(Clone, Debug, PartialEq, Eq)]
pub struct PlainRow {
    pub host: String,
    pub path: String,
    pub secure: i64,
    pub name: String,
    pub value: String,
}

/// A row of a store that may keep a value encrypted: where `value` is
/// empty, the value is what `encrypted_value` decrypts to.
#[derive(Clone, Debug, PartialEq, Eq)]
pub struct EncryptedRow {
    pub host: String,
    pub path: String,
    pub secure: i64,
    pub name: String,
    pub value: String,
    pub encrypted_value: Vec<u8>,
}

/// The record that a plain row holds.
pub open spec fn spec_plain_record(row: PlainRow) -> CookieRecordView {
    CookieRecordView {
        domain: row.host@,
        path: row.path@,
        name: row.name@,
        value: row.value@,
        secure: row.secure != 0,
    }
}

/// The value of a row of an encrypted store: the plain value where there is
/// one, else the decrypted one.
pub open spec fn spec_row_value(key: Seq<u8>, iv: Seq<u8>, row: EncryptedRow) -> Result<
    Seq<char>,
    DecodeError,
> {
    if row.value@.len() > 0 {
        Ok(row.value@)
    } else {
        spec_decrypt_value(key, iv, row.encrypted_value@)
    }
}

/// The record that a row of an encrypted store holds.
pub open spec fn spec_encrypted_record(key: Seq<u8>, iv: Seq<u8>, row: EncryptedRow) -> Result<
    CookieRecordView,
    DecodeError,
> {
    match spec_row_value(key, iv, row) {
        Err(e) => Err(e),
        Ok(value) => Ok(
            CookieRecordView {
                domain: row.host@,
                path: row.path@,
                name: row.name@,
                value,
                secure: row.secure != 0,
            },
        ),
    }
}

/// The records of an encrypted store, or the failure of its first row that
/// does not decode.
pub open spec fn spec_decode_rows(key: Seq<u8>, iv: Seq<u8>, rows: Seq<EncryptedRow>) -> Result<
    Seq<CookieRecordView>,
    DecodeError,
>
    decreases rows.len(),
{
    if rows.len() == 0 {
        Ok(Seq::empty())
    } else {
        match spec_decode_rows(key, iv, rows.drop_last()) {
            Err(e) => Err(e),
            Ok(records) => match spec_encrypted_record(key, iv, rows.last()) {
                Err(e) => Err(e),
                Ok(record) => Ok(records.push(record)),
            },
        }
    }
}

/// Decodes one row of an encrypted store.
pub fn decode_row(row: &EncryptedRow, key: &CipherKey) -> (record: Result<
    CookieRecord,
    DecodeError,
>)
    ensures
        match record {
            Ok(r) => spec_encrypted_record(key.key(), key.iv(), *row) == Ok::<
                CookieRecordView,
                DecodeError,
            >(r@),
            Err(e) => spec_encrypted_record(key.key(), key.iv(), *row) == Err::<
                CookieRecordView,
                DecodeError,
            >(e),
        },
{
    let value = if row.value.as_str().is_empty() {
        match key.decrypt_value(row.encrypted_value.as_slice()) {
            Err(e) => {
                return Err(e);
            },
            Ok(text) => text,
        }
    } else {
        row.value.clone()
    };
    Ok(
        CookieRecord {
            domain: row.host.clone(),
            path: row.path.clone(),
            name: row.name.clone(),
            value,
            secure: row.secure != 0,
        },
    )
}

/// Decodes the rows of an encrypted store in order, and stops at the first
/// row that does not decode.
pub fn decode_rows(rows: &Vec<EncryptedRow>, key: &CipherKey) -> (records: Result<
    Vec<CookieRecord>,
    DecodeError,
>)
    ensures
        match records {
            Ok(r) => spec_decode_rows(key.key(), key.iv(), rows@) == Ok::<
                Seq<CookieRecordView>,
                DecodeError,
            >(record_views(r@)),
            Err(e) => spec_decode_rows(key.key(), key.iv(), rows@) == Err::<
                Seq<CookieRecordView>,
                DecodeError,
            >(e),
        },
{
    let mut records: Vec<CookieRecord> = Vec::new();
    let mut i: usize = 0;
    proof {
        assert(record_views(records@) =~= Seq::<CookieRecordView>::empty());
    }
    while i < rows.len()
        invariant
            i <= rows.len(),
            spec_decode_rows(key.key(), key.iv(), rows@.take(i as int)) == Ok::<
                Seq<CookieRecordView>,
                DecodeError,
            >(record_views(records@)),
        decreases rows.len() - i,
    {
        proof {
            assert(rows@.take(i + 1).drop_last() == rows@.take(i as int));
            assert(rows@.take(i + 1).last() == rows@[i as int]);
        }
        match decode_row(&rows[i], key) {
            Err(e) => {
                proof {
                    lemma_failure_stays(key.key(), key.iv(), rows@, i + 1);
                }
                return Err(e);
            },
            Ok(record) => {
                proof {
                    assert(record_views(records@.push(record)) == record_views(records@).push(
                        record@,
                    ));
                }
                records.push(record);
            },
        }
        i += 1;
    }
    proof {
        assert(rows@.take(i as int) == rows@);
    }
    Ok(records)
}

/// A failure among the first `n` rows is the failure of all the rows.
pub proof fn lemma_failure_stays(key: Seq<u8>, iv: Seq<u8>, rows: Seq<EncryptedRow>, n: int)
    requires
        0 <= n <= rows.len(),
        spec_decode_rows(key, iv, rows.take(n)) is Err,
    ensures
        spec_decode_rows(key, iv, rows) == spec_decode_rows(key, iv, rows.take(n)),
    decreases rows.len() - n,
{
    if n < rows.len() {
        assert(rows.take(n + 1).drop_last() == rows.take(n));
        lemma_failure_stays(key, iv, rows, n + 1);
    } else {
        assert(rows.take(n) == rows);
    }
}

/// A store decodes exactly when each of its rows does, and then holds the
/// record of each row at the place of the row; else it fails as the first
/// row that does not decode fails.
pub proof fn lemma_decode_rows_each(key: Seq<u8>, iv: Seq<u8>, rows: Seq<EncryptedRow>)
    ensures
        match spec_decode_rows(key, iv, rows) {
            Ok(records) => {
                &&& records.len() == rows.len()
                &&& forall|i: int|
                    0 <= i < rows.len() ==> spec_encrypted_record(key, iv, #[trigger] rows[i])
                        == Ok::<CookieRecordView, DecodeError>(records[i])
            },
            Err(e) => exists|i: int|
                {
                    &&& 0 <= i < rows.len()
                    &&& spec_encrypted_record(key, iv, #[trigger] rows[i]) == Err::<
                        CookieRecordView,
                        DecodeError,
                    >(e)
                    &&& forall|j: int|
                        0 <= j < i ==> spec_encrypted_record(key, iv, #[trigger] rows[j]) is Ok
                },
        },
    decreases rows.len(),
{
    if rows.len() > 0 {
        let front = rows.drop_last();
        lemma_decode_rows_each(key, iv, front);
        assert forall|i: int| 0 <= i < front.len() implies front[i] == rows[i] by {}
        match spec_decode_rows(key, iv, front) {
            Ok(records) => {
                match spec_encrypted_record(key, iv, rows.last()) {
                    Ok(record) => {
                        assert forall|i: int| 0 <= i < rows.len() implies spec_encrypted_record(
                            key,
                            iv,
                            #[trigger] rows[i],
                        ) == Ok::<CookieRecordView, DecodeError>(records.push(record)[i]) by {
                            if i < front.len() {
                                assert(front[i] == rows[i]);
                            }
                        }
                    },
                    Err(e) => {
                        let i = rows.len() - 1;
                        assert forall|j: int| 0 <= j < i implies spec_encrypted_record(
                            key,
                            iv,
                            #[trigger] rows[j],
                        ) is Ok by {
                            assert(front[j] == rows[j]);
                        }
                        assert(spec_encrypted_record(key, iv, rows[i]) == Err::<
                            CookieRecordView,
                            DecodeError,
                        >(e));
                    },
                }
            },
            Err(e) => {
                let i = choose|i: int|
                    {
                        &&& 0 <= i < front.len()
                        &&& spec_encrypted_record(key, iv, #[trigger] front[i]) == Err::<
                            CookieRecordView,
                            DecodeError,
                        >(e)
                        &&& forall|j: int|
                            0 <= j < i ==> spec_encrypted_record(key, iv, #[trigger] front[j]) is Ok
                    };
                assert(front[i] == rows[i]);
                assert forall|j: int| 0 <= j < i implies spec_encrypted_record(
                    key,
                    iv,
                    #[trigger] rows[j],
                ) is Ok by {
                    assert(front[j] == rows[j]);
                }
            },
        }
    }
}

/// The records of an encrypted store under given cipher parameters.
pub open spec fn spec_load_chromium(params: CipherParams, rows: Seq<EncryptedRow>) -> Result<
    Seq<CookieRecordView>,
    DecodeError,
> {
    if params.usable() {
        spec_decode_rows(params.key_bytes(), params.iv@, rows)
    } else {
        Err(DecodeError::Parameters)
    }
}

/// Decodes an encrypted store: derives its key once, then decodes every
/// row in order. The first row that does not decode fails the whole store.
pub fn load_chromium_cookies(rows: &Vec<EncryptedRow>, params: &CipherParams) -> (loaded: Result<
    Vec<CookieRecord>,
    RemoteError,
>)
    ensures
        match loaded {
            Ok(records) => spec_load_chromium(*params, rows@) == Ok::<
                Seq<CookieRecordView>,
                DecodeError,
            >(record_views(records@)),
            Err(error) => spec_load_chromium(*params, rows@) is Err && error@
                == spec_load_chromium(*params, rows@)->Err_0.spec_message(),
        },
{
    match CipherKey::derive(params) {
        None => Err(DecodeError::Parameters.into_error()),
        Some(key) => match decode_rows(rows, &key) {
            Ok(records) => Ok(records),
            Err(e) => Err(e.into_error()),
        },
    }
}

/// The records of a plain store.
pub open spec fn spec_load_firefox(rows: Seq<PlainRow>) -> Seq<CookieRecordView> {
    rows.map_values(|row: PlainRow| spec_plain_record(row))
}

/// Reads a plain store: one record for each row, in order.
pub fn load_firefox_cookies(rows: &Vec<PlainRow>) -> (records: Vec<CookieRecord>)
    ensures
        record_views(records@) == spec_load_firefox(rows@),
{
    let mut records: Vec<CookieRecord> = Vec::new();
    let mut i: usize = 0;
    while i < rows.len()
        invariant
            i <= rows.len(),
            records@.len() == i,
            forall|j: int| 0 <= j < i ==> (#[trigger] records@[j])@ == spec_plain_record(rows@[j]),
        decreases rows.len() - i,
    {
        let row = &rows[i];
        records.push(
            CookieRecord {
                domain: row.host.clone(),
                path: row.path.clone(),
                name: row.name.clone(),
                value: row.value.clone(),
                secure: row.secure != 0,
            },
        );
        i += 1;
    }
    proof {
        assert(record_views(records@) =~= spec_load_firefox(rows@));
    }
    records
}

/// Whether a record is the cookie `name` of the domain `host`.
pub open spec fn is_match(record: CookieRecordView, host: Seq<char>, name: Seq<char>) -> bool {
    record.domain == host && record.name == name
}

/// Whether no record is the cookie `name` of the domain `host`.
pub open spec fn no_match(
    records: Seq<CookieRecordView>,
    host: Seq<char>,
    name: Seq<char>,
) -> bool {
    forall|i: int| 0 <= i < records.len() ==> !is_match(#[trigger] records[i], host, name)
}

/// Whether the record at `i` matches and none before it does.
pub open spec fn is_first_match(
    records: Seq<CookieRecordView>,
    host: Seq<char>,
    name: Seq<char>,
    i: int,
) -> bool {
    &&& 0 <= i < records.len()
    &&& is_match(records[i], host, name)
    &&& no_match(records.take(i), host, name)
}

/// The first record that is the cookie `name` of the domain `host`.
pub open spec fn spec_lookup(
    records: Seq<CookieRecordView>,
    host: Seq<char>,
    name: Seq<char>,
) -> Option<CookieRecordView>
    decreases records.len(),
{
    if records.len() == 0 {
        None
    } else if is_match(records.first(), host, name) {
        Some(records.first())
    } else {
        spec_lookup(records.drop_first(), host, name)
    }
}

/// The view of a record that may be absent.
pub open spec fn found_view(found: Option<CookieRecord>) -> Option<CookieRecordView> {
    match found {
        Some(record) => Some(record@),
        None => None,
    }
}

/// The lookup gives nothing where no record matches.
pub proof fn lemma_lookup_none(records: Seq<CookieRecordView>, host: Seq<char>, name: Seq<char>)
    requires
        no_match(records, host, name),
    ensures
        spec_lookup(records, host, name) is None,
    decreases records.len(),
{
    if records.len() > 0 {
        assert(!is_match(records[0], host, name));
        assert forall|i: int| 0 <= i < records.drop_first().len() implies !is_match(
            #[trigger] records.drop_first()[i],
            host,
            name,
        ) by {
            assert(records.drop_first()[i] == records[i + 1]);
        }
        lemma_lookup_none(records.drop_first(), host, name);
    }
}

/// The lookup gives the first record that matches.
pub proof fn lemma_lookup_first(
    records: Seq<CookieRecordView>,
    host: Seq<char>,
    name: Seq<char>,
    i: int,
)
    requires
        is_first_match(records, host, name, i),
    ensures
        spec_lookup(records, host, name) == Some(records[i]),
    decreases i,
{
    if i > 0 {
        assert(records.take(i)[0] == records[0]);
        assert(!is_match(records[0], host, name));
        assert forall|j: int| 0 <= j < i - 1 implies !is_match(
            #[trigger] records.drop_first().take(i - 1)[j],
            host,
            name,
        ) by {
            assert(records.drop_first().take(i - 1)[j] == records.take(i)[j + 1]);
        }
        lemma_lookup_first(records.drop_first(), host, name, i - 1);
    }
}

/// The place of the first record whose domain is `host` and whose name is
/// `name`.
pub fn find_cookie(records: &Vec<CookieRecord>, name: &str, host: &str) -> (found: Option<usize>)
    ensures
        match found {
            Some(i) => is_first_match(record_views(records@), host@, name@, i as int),
            None => no_match(record_views(records@), host@, name@),
        },
{
    let host_text = host.to_owned();
    let name_text = name.to_owned();
    let ghost views = record_views(records@);
    let mut i: usize = 0;
    while i < records.len()
        invariant
            i <= records.len(),
            host_text@ == host@,
            name_text@ == name@,
            views == record_views(records@),
            no_match(views.take(i as int), host@, name@),
        decreases records.len() - i,
    {
        if records[i].domain == host_text && records[i].name == name_text {
            return Some(i);
        }
        proof {
            assert forall|j: int| 0 <= j < i + 1 implies !is_match(
                #[trigger] views.take(i + 1)[j],
                host@,
                name@,
            ) by {
                if j < i {
                    assert(views.take(i + 1)[j] == views.take(i as int)[j]);
                }
            }
        }
        i += 1;
    }
    proof {
        assert(views.take(i as int) == views);
    }
    None
}

/// The first record whose domain is `host` and whose name is `name`. Where
/// several records match, the earliest wins.
pub fn get_cookie_by_name(records: Vec<CookieRecord>, name: &str, host: &str) -> (found: Option<
    CookieRecord,
>)
    ensures
        found_view(found) == spec_lookup(record_views(records@), host@, name@),
        match found {
            Some(record) => exists|i: int|
                is_first_match(record_views(records@), host@, name@, i) && records@[i] == record,
            None => no_match(record_views(records@), host@, name@),
        },
{
    match find_cookie(&records, name, host) {
        None => {
            proof {
                lemma_lookup_none(record_views(records@), host@, name@);
            }
            None
        },
        Some(i) => {
            proof {
                lemma_lookup_first(record_views(records@), host@, name@, i as int);
            }
            let mut rest = records;
            let record = rest.remove(i);
            Some(record)
        },
    }
}

/// What looking a cookie up in an encrypted store gives: nothing where
/// the store does not decode.
pub open spec fn spec_chromium_cookie(
    params: CipherParams,
    rows: Seq<EncryptedRow>,
    host: Seq<char>,
    name: Seq<char>,
) -> Option<CookieRecordView> {
    match spec_load_chromium(params, rows) {
        Err(_) => None,
        Ok(records) => spec_lookup(records, host, name),
    }
}

/// The cookie `name` of the domain `host` in an encrypted store, if the
/// store decodes and holds one.
pub fn get_chromium_cookie(
    rows: &Vec<EncryptedRow>,
    params: &CipherParams,
    host: &str,
    name: &str,
) -> (found: Option<CookieRecord>)
    ensures
        found_view(found) == spec_chromium_cookie(*params, rows@, host@, name@),
{
    match load_chromium_cookies(rows, params) {
        Err(_) => None,
        Ok(records) => get_cookie_by_name(records, name, host),
    }
}

/// The cookie `name` of the domain `host` in a plain store, if it holds
/// one.
pub fn get_firefox_cookie(rows: &Vec<PlainRow>, host: &str, name: &str) -> (found: Option<
    CookieRecord,
>)
    ensures
        found_view(found) == spec_lookup(spec_load_firefox(rows@), host@, name@),
{
    get_cookie_by_name(load_firefox_cookies(rows), name, host)
}

} // verus!
