//! Recipients: building them from CSV rows, personalizing templates with
//! their columns, and the blacklist of addresses that are never mailed.
use vstd::prelude::*;

use crate::text::{
    chars_of, copy_range, decimal, decimal_chars, extend_chars, find_char_from, find_from, lemma_find_from, lowercase,
    lowercase_chars, occurs_at, replace_all, replace_chars, same_chars, string_from_chars, string_views,
    lemma_trim_idempotent, trim, trim_chars, contains_seq,
};

verus! {

// ---------------------------------------------------------------------------
// Recipients and their columns.
// ---------------------------------------------------------------------------

/// A recipient as the contracts see it: the address and the (header, value)
/// pairs of its CSV row.
pub struct RecipientView {
    pub email: Seq<char>,
    pub fields: Seq<(Seq<char>, Seq<char>)>,
}

/// A single recipient row from the CSV. The email field is extracted separately.
pub struct Recipient {
    pub email: String,
    /// All columns from the CSV row as (header, value) pairs; recipients built
    /// from rows hold each header once, with the value of its last column
    pub fields: Vec<(String, String)>,
}

/// The character sequences of (header, value) pairs.
pub open spec fn pair_views(v: Seq<(String, String)>) -> Seq<(Seq<char>, Seq<char>)> {
    v.map_values(|p: (String, String)| (p.0@, p.1@))
}

impl View for Recipient {
    type V = RecipientView;

    open spec fn view(&self) -> RecipientView {
        RecipientView { email: self.email@, fields: pair_views(self.fields@) }
    }
}

/// The views of a sequence of recipients.
pub open spec fn recipient_views(v: Seq<Recipient>) -> Seq<RecipientView> {
    v.map_values(|r: Recipient| r@)
}

/// The value of column `key`; where a header occurs twice, its last column counts.
pub open spec fn lookup(pairs: Seq<(Seq<char>, Seq<char>)>, key: Seq<char>) -> Option<Seq<char>>
    decreases pairs.len(),
{
    if pairs.len() == 0 {
        None
    } else if pairs.last().0 == key {
        Some(pairs.last().1)
    } else {
        lookup(pairs.drop_last(), key)
    }
}

/// The value of column `key` among `fields`; where a header occurs twice, its
/// last column counts.
pub fn lookup_value(fields: &Vec<(String, String)>, key: &[char]) -> (r: Option<Vec<char>>)
    ensures
        match r {
            Some(v) => lookup(pair_views(fields@), key@) == Some(v@),
            None => lookup(pair_views(fields@), key@) is None,
        },
{
    let ghost pairs = pair_views(fields@);
    let n = fields.len();
    let mut i = n;
    assert(pairs.take(n as int) =~= pairs);
    while i > 0
        invariant
            i <= n,
            n == fields@.len(),
            pairs == pair_views(fields@),
            lookup(pairs, key@) == lookup(pairs.take(i as int), key@),
        decreases i,
    {
        let k = chars_of(fields[i - 1].0.as_str());
        assert(pairs.take(i as int).last() == pairs[i - 1]);
        assert(pairs.take(i as int).drop_last() =~= pairs.take(i - 1));
        if same_chars(&k, key) {
            return Some(chars_of(fields[i - 1].1.as_str()));
        }
        i = i - 1;
    }
    None
}

impl Recipient {
    /// The value of column `key` of this recipient's row.
    pub open spec fn field(&self, key: Seq<char>) -> Option<Seq<char>> {
        lookup(self@.fields, key)
    }

    /// The value of column `key` of this recipient's row; where a header
    /// occurs twice, its last column counts.
    pub fn field_value(&self, key: &[char]) -> (r: Option<Vec<char>>)
        ensures
            match r {
                Some(v) => self.field(key@) == Some(v@),
                None => self.field(key@) is None,
            },
    {
        lookup_value(&self.fields, key)
    }
}

// ---------------------------------------------------------------------------
// Personalization.
// ---------------------------------------------------------------------------

/// The placeholders of `t` from position `from` on: the text between a `$` and
/// the next `$`; after a placeholder the scan resumes behind its closing `$`.
pub open spec fn placeholders_from(t: Seq<char>, from: int) -> Seq<Seq<char>>
    decreases t.len() - from,
{
    if from < 0 || from >= t.len() {
        seq![]
    } else {
        let i = find_from(t, '$', from);
        if i >= t.len() {
            seq![]
        } else {
            let j = find_from(t, '$', i + 1);
            if j >= t.len() {
                seq![]
            } else {
                proof {
                    lemma_find_from(t, '$', from);
                    lemma_find_from(t, '$', i + 1);
                }
                seq![t.subrange(i + 1, j)] + placeholders_from(t, j + 1)
            }
        }
    }
}

/// The placeholders of a template, in the order in which they occur.
pub open spec fn placeholders(t: Seq<char>) -> Seq<Seq<char>> {
    placeholders_from(t, 0)
}

/// The token `$name$` that stands for a placeholder.
pub open spec fn token(name: Seq<char>) -> Seq<char> {
    seq!['$'] + name + seq!['$']
}

/// One substitution: every `$name$` in `acc` is replaced by the column `name`,
/// when `name` is not empty and such a column exists.
pub open spec fn substitute(
    acc: Seq<char>,
    name: Seq<char>,
    pairs: Seq<(Seq<char>, Seq<char>)>,
) -> Seq<char> {
    if name.len() > 0 {
        match lookup(pairs, name) {
            Some(v) => replace_all(acc, token(name), v),
            None => acc,
        }
    } else {
        acc
    }
}

/// The substitutions for `names`, made one after the other on `acc`.
pub open spec fn substitute_all(
    acc: Seq<char>,
    names: Seq<Seq<char>>,
    pairs: Seq<(Seq<char>, Seq<char>)>,
) -> Seq<char>
    decreases names.len(),
{
    if names.len() == 0 {
        acc
    } else {
        substitute_all(substitute(acc, names[0], pairs), names.drop_first(), pairs)
    }
}

/// A template with the substitutions for each of its placeholders made in turn.
pub open spec fn personalized(t: Seq<char>, pairs: Seq<(Seq<char>, Seq<char>)>) -> Seq<char> {
    substitute_all(t, placeholders(t), pairs)
}

/// Replace $Placeholder$ tokens in a template with values from the recipient's fields.
/// Placeholders without a matching column are left as they stand.
pub fn personalize(template: &str, recipient: &Recipient) -> (r: String)
    ensures
        r@ == personalized(template@, recipient@.fields),
{
    let t = chars_of(template);
    let ghost pairs = recipient@.fields;
    let mut result = copy_range(&t, 0, t.len());
    assert(t@.subrange(0, t@.len() as int) =~= t@);
    let n = t.len();
    let mut pos: usize = 0;
    while pos < n
        invariant
            pos <= n,
            n == t@.len(),
            t@ == template@,
            pairs == recipient@.fields,
            personalized(t@, pairs) == substitute_all(result@, placeholders_from(t@, pos as int), pairs),
        ensures
            personalized(t@, pairs) == result@,
        decreases n - pos,
    {
        let i = find_char_from(&t, '$', pos);
        proof {
            lemma_find_from(t@, '$', pos as int);
        }
        if i >= n {
            assert(placeholders_from(t@, pos as int) =~= Seq::<Seq<char>>::empty());
            break;
        }
        let j = find_char_from(&t, '$', i + 1);
        proof {
            lemma_find_from(t@, '$', i + 1);
        }
        if j >= n {
            assert(placeholders_from(t@, pos as int) =~= Seq::<Seq<char>>::empty());
            break;
        }
        let name = copy_range(&t, i + 1, j);
        assert(placeholders_from(t@, pos as int) =~= seq![name@] + placeholders_from(t@, j + 1));
        assert((seq![name@] + placeholders_from(t@, j + 1)).drop_first() =~= placeholders_from(
            t@,
            j + 1,
        ));
        if name.len() > 0 {
            match recipient.field_value(&name) {
                Some(v) => {
                    let mut tok: Vec<char> = Vec::new();
                    tok.push('$');
                    extend_chars(&mut tok, &name);
                    tok.push('$');
                    assert(tok@ =~= token(name@));
                    result = replace_chars(&result, &tok, &v);
                },
                None => {},
            }
        }
        pos = j + 1;
    }
    string_from_chars(&result)
}

/// The names among `names` that are not empty and have no column, in order.
pub open spec fn unmatched_names(
    names: Seq<Seq<char>>,
    pairs: Seq<(Seq<char>, Seq<char>)>,
) -> Seq<Seq<char>>
    decreases names.len(),
{
    if names.len() == 0 {
        seq![]
    } else {
        let rest = unmatched_names(names.drop_first(), pairs);
        if names[0].len() > 0 && lookup(pairs, names[0]) is None {
            seq![names[0]] + rest
        } else {
            rest
        }
    }
}

/// The placeholders of a template that have no matching column of the
/// recipient, in the order in which they occur; these are left as they stand
/// by `personalize` and are worth a warning.
pub fn missing_columns(template: &str, recipient: &Recipient) -> (r: Vec<String>)
    ensures
        string_views(r@) == unmatched_names(placeholders(template@), recipient@.fields),
{
    let t = chars_of(template);
    let ghost pairs = recipient@.fields;
    let mut out: Vec<String> = Vec::new();
    let n = t.len();
    let mut pos: usize = 0;
    while pos < n
        invariant
            pos <= n,
            n == t@.len(),
            t@ == template@,
            pairs == recipient@.fields,
            unmatched_names(placeholders(t@), pairs) == string_views(out@) + unmatched_names(
                placeholders_from(t@, pos as int),
                pairs,
            ),
        ensures
            unmatched_names(placeholders(t@), pairs) == string_views(out@),
        decreases n - pos,
    {
        let i = find_char_from(&t, '$', pos);
        proof {
            lemma_find_from(t@, '$', pos as int);
        }
        if i >= n {
            assert(placeholders_from(t@, pos as int) =~= Seq::<Seq<char>>::empty());
            assert(string_views(out@) + Seq::<Seq<char>>::empty() =~= string_views(out@));
            break;
        }
        let j = find_char_from(&t, '$', i + 1);
        proof {
            lemma_find_from(t@, '$', i + 1);
        }
        if j >= n {
            assert(placeholders_from(t@, pos as int) =~= Seq::<Seq<char>>::empty());
            assert(string_views(out@) + Seq::<Seq<char>>::empty() =~= string_views(out@));
            break;
        }
        let name = copy_range(&t, i + 1, j);
        let ghost rest = placeholders_from(t@, j + 1);
        assert(placeholders_from(t@, pos as int) =~= seq![name@] + rest);
        assert((seq![name@] + rest).drop_first() =~= rest);
        assert((seq![name@] + rest)[0] == name@);
        let ghost before = string_views(out@);
        if name.len() > 0 && recipient.field_value(&name).is_none() {
            out.push(string_from_chars(&name));
            assert(string_views(out@) =~= before + seq![name@]);
            assert(before + (seq![name@] + unmatched_names(rest, pairs)) =~= string_views(out@)
                + unmatched_names(rest, pairs));
        }
        pos = j + 1;
    }
    assert(string_views(out@) + Seq::<Seq<char>>::empty() =~= string_views(out@));
    out
}

// ---------------------------------------------------------------------------
// Building recipients from CSV rows.
// ---------------------------------------------------------------------------

/// The (header, value) pairs of a row: headers and values taken side by side,
/// as far as both reach.
pub open spec fn zip_fields(headers: Seq<Seq<char>>, record: Seq<Seq<char>>) -> Seq<
    (Seq<char>, Seq<char>),
> {
    let n = if headers.len() <= record.len() {
        headers.len()
    } else {
        record.len()
    };
    Seq::new(n, |i: int| (headers[i], record[i]))
}

/// `pairs` without the pairs whose header is `key`.
pub open spec fn drop_key(pairs: Seq<(Seq<char>, Seq<char>)>, key: Seq<char>) -> Seq<
    (Seq<char>, Seq<char>),
>
    decreases pairs.len(),
{
    if pairs.len() == 0 {
        seq![]
    } else {
        let rest = drop_key(pairs.drop_last(), key);
        if pairs.last().0 == key {
            rest
        } else {
            rest.push(pairs.last())
        }
    }
}

/// The pairs with each header once, as a map built from them in order holds
/// them: a pair is dropped when a later pair has the same header.
pub open spec fn unique_fields(pairs: Seq<(Seq<char>, Seq<char>)>) -> Seq<(Seq<char>, Seq<char>)>
    decreases pairs.len(),
{
    if pairs.len() == 0 {
        seq![]
    } else {
        drop_key(unique_fields(pairs.drop_last()), pairs.last().0).push(pairs.last())
    }
}

/// No header occurs twice among the pairs.
pub open spec fn keys_distinct(pairs: Seq<(Seq<char>, Seq<char>)>) -> bool {
    forall|i: int, j: int| 0 <= i < j < pairs.len() ==> #[trigger] pairs[i].0 != #[trigger] pairs[j].0
}

/// Dropping a header removes its column and keeps the others.
pub proof fn lemma_drop_key(pairs: Seq<(Seq<char>, Seq<char>)>, key: Seq<char>, j: Seq<char>)
    ensures
        lookup(drop_key(pairs, key), j) == if j == key {
            None
        } else {
            lookup(pairs, j)
        },
        forall|i: int|
            #![trigger drop_key(pairs, key)[i]]
            0 <= i < drop_key(pairs, key).len() ==> drop_key(pairs, key)[i].0 != key
                && pairs.contains(drop_key(pairs, key)[i]),
        keys_distinct(pairs) ==> keys_distinct(drop_key(pairs, key)),
    decreases pairs.len(),
{
    if pairs.len() > 0 {
        let init = pairs.drop_last();
        lemma_drop_key(init, key, j);
        let rest = drop_key(init, key);
        assert(rest.push(pairs.last()).drop_last() =~= rest);
        assert forall|i: int|
            #![trigger drop_key(pairs, key)[i]]
            0 <= i < drop_key(pairs, key).len() implies drop_key(pairs, key)[i].0 != key
            && pairs.contains(drop_key(pairs, key)[i]) by {
            if i < rest.len() {
                assert(drop_key(pairs, key)[i] == rest[i]);
                assert(rest[i].0 != key && init.contains(rest[i]));
                let k = choose|k: int| 0 <= k < init.len() && init[k] == rest[i];
                assert(pairs[k] == init[k]);
            } else {
                assert(pairs[pairs.len() - 1] == pairs.last());
            }
        }
        if keys_distinct(pairs) {
            assert(keys_distinct(init)) by {
                assert forall|a: int, b: int| 0 <= a < b < init.len() implies #[trigger] init[a].0
                    != #[trigger] init[b].0 by {
                    assert(init[a] == pairs[a] && init[b] == pairs[b]);
                }
            }
            let d = drop_key(pairs, key);
            assert forall|a: int, b: int| 0 <= a < b < d.len() implies #[trigger] d[a].0
                != #[trigger] d[b].0 by {
                if b < rest.len() {
                    assert(d[a] == rest[a] && d[b] == rest[b]);
                } else {
                    assert(d[b] == pairs.last());
                    assert(d[a] == rest[a]);
                    assert(rest[a].0 != key && init.contains(rest[a]));
                    let k = choose|k: int| 0 <= k < init.len() && init[k] == rest[a];
                    assert(pairs[k] == init[k]);
                    assert(pairs[k].0 != pairs[pairs.len() - 1].0);
                }
            }
        }
    }
}

/// Keeping each header once changes no column's value, and leaves no header twice.
pub proof fn lemma_unique_fields(pairs: Seq<(Seq<char>, Seq<char>)>, j: Seq<char>)
    ensures
        lookup(unique_fields(pairs), j) == lookup(pairs, j),
        keys_distinct(unique_fields(pairs)),
    decreases pairs.len(),
{
    if pairs.len() > 0 {
        let init = pairs.drop_last();
        lemma_unique_fields(init, j);
        let u = unique_fields(init);
        let k = pairs.last().0;
        lemma_drop_key(u, k, j);
        let d = drop_key(u, k);
        assert(unique_fields(pairs) == d.push(pairs.last()));
        assert(d.push(pairs.last()).drop_last() =~= d);
        let full = d.push(pairs.last());
        assert forall|a: int, b: int| 0 <= a < b < full.len() implies #[trigger] full[a].0
            != #[trigger] full[b].0 by {
            if b < d.len() {
                assert(full[a] == d[a] && full[b] == d[b]);
            } else {
                assert(full[a] == d[a]);
            }
        }
    }
}

/// The recipient that a row gives: its trimmed address from column
/// `email_col`, or none when that column is missing or blank. Its fields hold
/// each header once, with the value of the header's last column.
pub open spec fn row_recipient(
    headers: Seq<Seq<char>>,
    record: Seq<Seq<char>>,
    email_col: Seq<char>,
) -> Option<RecipientView> {
    let fields = unique_fields(zip_fields(headers, record));
    match lookup(fields, email_col) {
        Some(e) => if trim(e).len() > 0 {
            Some(RecipientView { email: trim(e), fields: fields })
        } else {
            None
        },
        None => None,
    }
}

/// The recipients of the rows, in row order; rows without an address are skipped.
pub open spec fn rows_recipients(
    headers: Seq<Seq<char>>,
    records: Seq<Seq<Seq<char>>>,
    email_col: Seq<char>,
) -> Seq<RecipientView>
    decreases records.len(),
{
    if records.len() == 0 {
        seq![]
    } else {
        let rest = rows_recipients(headers, records.drop_last(), email_col);
        match row_recipient(headers, records.last(), email_col) {
            Some(r) => rest.push(r),
            None => rest,
        }
    }
}

/// The character sequences of the rows of a table.
pub open spec fn table_views(records: Seq<Vec<String>>) -> Seq<Seq<Seq<char>>> {
    records.map_values(|r: Vec<String>| string_views(r@))
}

/// The pairs of `fields` whose header is not `key`.
fn drop_header(fields: Vec<(String, String)>, key: &String) -> (r: Vec<(String, String)>)
    ensures
        pair_views(r@) == drop_key(pair_views(fields@), key@),
{
    let ghost all = pair_views(fields@);
    let mut out: Vec<(String, String)> = Vec::new();
    for p in it: fields
        invariant
            all == pair_views(it.seq()),
            pair_views(out@) == drop_key(all.take(it.index()), key@),
    {
        let ghost idx = it.index();
        assert(all.take(idx + 1).drop_last() =~= all.take(idx));
        assert(all.take(idx + 1).last() == (p.0@, p.1@));
        if p.0 != *key {
            let ghost before = out@;
            out.push(p);
            assert(pair_views(out@) =~= pair_views(before).push((p.0@, p.1@)));
        }
    }
    assert(all.take(all.len() as int) =~= all);
    out
}

/// The (header, value) pairs of one row, each header once with the value of
/// its last column.
pub fn row_fields(headers: &Vec<String>, record: &Vec<String>) -> (r: Vec<(String, String)>)
    ensures
        pair_views(r@) == unique_fields(zip_fields(string_views(headers@), string_views(record@))),
{
    let n = if headers.len() <= record.len() {
        headers.len()
    } else {
        record.len()
    };
    let ghost z = zip_fields(string_views(headers@), string_views(record@));
    let mut out: Vec<(String, String)> = Vec::new();
    for k in 0..n
        invariant
            n == z.len(),
            n <= headers@.len(),
            n <= record@.len(),
            z == zip_fields(string_views(headers@), string_views(record@)),
            pair_views(out@) == unique_fields(z.take(k as int)),
    {
        let h = headers[k].clone();
        let v = record[k].clone();
        assert(h@ == z[k as int].0 && v@ == z[k as int].1);
        assert(z.take(k + 1).drop_last() =~= z.take(k as int));
        assert(z.take(k + 1).last() == z[k as int]);
        let kept = drop_header(out, &h);
        let ghost before = kept@;
        out = kept;
        out.push((h, v));
        assert(pair_views(out@) =~= pair_views(before).push((h@, v@)));
    }
    assert(z.take(n as int) =~= z);
    out
}

/// The recipients of the CSV rows `records` under the header row `headers`:
/// for each row whose column `email_col` holds a non-blank value, in row
/// order, a recipient with that value trimmed as address and all the row's
/// (header, value) pairs.
pub fn recipients_from_records(
    headers: &Vec<String>,
    records: &Vec<Vec<String>>,
    email_col: &str,
) -> (r: Vec<Recipient>)
    ensures
        recipient_views(r@) == rows_recipients(
            string_views(headers@),
            table_views(records@),
            email_col@,
        ),
{
    let col = chars_of(email_col);
    let ghost hv = string_views(headers@);
    let ghost tv = table_views(records@);
    let mut out: Vec<Recipient> = Vec::new();
    let n = records.len();
    for i in 0..n
        invariant
            n == records@.len(),
            col@ == email_col@,
            hv == string_views(headers@),
            tv == table_views(records@),
            recipient_views(out@) =~= rows_recipients(hv, tv.take(i as int), col@),
    {
        let fields = row_fields(headers, &records[i]);
        assert(tv.take(i + 1).drop_last() =~= tv.take(i as int));
        assert(tv.take(i + 1).last() == string_views(records@[i as int]@));
        match lookup_value(&fields, &col) {
            Some(e) => {
                let email = trim_chars(&e);
                if email.len() > 0 {
                    let rec = Recipient { email: string_from_chars(&email), fields };
                    out.push(rec);
                    assert(recipient_views(out@) =~= rows_recipients(
                        hv,
                        tv.take(i + 1),
                        col@,
                    ));
                }
            },
            None => {},
        }
    }
    assert(tv.take(n as int) =~= tv);
    out
}

/// The rows whose recipient would be skipped for want of an address, by
/// their index (from 0, after the header row).
pub open spec fn skipped_rows(
    headers: Seq<Seq<char>>,
    records: Seq<Seq<Seq<char>>>,
    email_col: Seq<char>,
) -> Seq<usize>
    decreases records.len(),
{
    if records.len() == 0 {
        seq![]
    } else {
        let rest = skipped_rows(headers, records.drop_last(), email_col);
        if row_recipient(headers, records.last(), email_col) is None {
            rest.push((records.len() - 1) as usize)
        } else {
            rest
        }
    }
}

/// The indices (from 0, after the header row) of the rows that give no
/// recipient because their `email_col` column is missing or blank.
pub fn rows_without_address(
    headers: &Vec<String>,
    records: &Vec<Vec<String>>,
    email_col: &str,
) -> (r: Vec<usize>)
    ensures
        r@ == skipped_rows(string_views(headers@), table_views(records@), email_col@),
{
    let col = chars_of(email_col);
    let ghost hv = string_views(headers@);
    let ghost tv = table_views(records@);
    let mut out: Vec<usize> = Vec::new();
    let n = records.len();
    for i in 0..n
        invariant
            n == records@.len(),
            col@ == email_col@,
            hv == string_views(headers@),
            tv == table_views(records@),
            out@ =~= skipped_rows(hv, tv.take(i as int), col@),
    {
        let fields = row_fields(headers, &records[i]);
        assert(tv.take(i + 1).drop_last() =~= tv.take(i as int));
        assert(tv.take(i + 1).last() == string_views(records@[i as int]@));
        let has_address = match lookup_value(&fields, &col) {
            Some(e) => trim_chars(&e).len() > 0,
            None => false,
        };
        if !has_address {
            out.push(i);
        }
    }
    assert(tv.take(n as int) =~= tv);
    out
}

/// The header row and the rows of a CSV text, as the `csv` crate reads them
/// with its default settings (the first record is the header row; every row
/// must have as many fields as it). `None` where the header row cannot be
/// read; otherwise the header row, the rows read before the first row that
/// cannot be read, and whether such a row stopped the reading.
pub uninterp spec fn csv_table(data: Seq<u8>) -> Option<(Seq<Seq<char>>, Seq<Seq<Seq<char>>>, bool)>;

/// Calls `csv::Reader::from_reader` on the bytes, then its `headers` and
/// `records`, and renders the fields as text, stopping at the first row that
/// cannot be read; the result is named `csv_table`.
#[verifier::external_body]
fn read_csv(data: &[u8]) -> (r: Option<(Vec<String>, Vec<Vec<String>>, bool)>)
    ensures
        match r {
            Some((h, rows, stopped)) => csv_table(data@) == Some(
                (string_views(h@), table_views(rows@), stopped),
            ),
            None => csv_table(data@) is None,
        },
{
    let mut rdr = csv::Reader::from_reader(data);
    let h: Vec<String> = match rdr.headers() {
        Ok(h) => h.iter().map(|f| f.to_string()).collect(),
        Err(_) => return None,
    };
    let mut rows: Vec<Vec<String>> = Vec::new();
    for rec in rdr.records() {
        match rec {
            Ok(rec) => rows.push(rec.iter().map(|f| f.to_string()).collect()),
            Err(_) => return Some((h, rows, true)),
        }
    }
    Some((h, rows, false))
}

/// Why a recipient list could not be read.
#[derive(Debug)]
pub enum CsvFault {
    /// The header row cannot be read.
    UnreadableHeaders,
    /// The header row lacks the address column.
    MissingEmailColumn(MissingEmailColumn),
    /// The row with this index (from 0, after the header row) cannot be read.
    UnreadableRow(usize),
}

/// The recipients of a CSV text, and the rows skipped for want of an address.
pub struct CsvRecipients {
    pub recipients: Vec<Recipient>,
    pub skipped_rows: Vec<usize>,
}

/// Reads the recipients from the bytes of a CSV file with a header row: the
/// header row must hold the column `email_col`; each row whose address in that
/// column is not blank gives a recipient, in row order.
pub fn recipients_from_csv(data: &[u8], email_col: &str) -> (r: Result<CsvRecipients, CsvFault>)
    ensures
        match csv_table(data@) {
            None => r matches Err(CsvFault::UnreadableHeaders),
            Some((h, rows, stopped)) => if !h.contains(email_col@) {
                r matches Err(CsvFault::MissingEmailColumn(e)) && e.column@ == email_col@
                    && string_views(e.available@) == h
            } else if stopped {
                r matches Err(CsvFault::UnreadableRow(i)) && i == rows.len()
            } else {
                r matches Ok(c) && recipient_views(c.recipients@) == rows_recipients(
                    h,
                    rows,
                    email_col@,
                ) && c.skipped_rows@ == skipped_rows(h, rows, email_col@)
            },
        },
{
    match read_csv(data) {
        None => Err(CsvFault::UnreadableHeaders),
        Some((headers, rows, stopped)) => {
            match check_email_column(&headers, email_col) {
                Err(e) => Err(CsvFault::MissingEmailColumn(e)),
                Ok(()) => {
                    if stopped {
                        Err(CsvFault::UnreadableRow(rows.len()))
                    } else {
                        let recipients = recipients_from_records(&headers, &rows, email_col);
                        let skipped = rows_without_address(&headers, &rows, email_col);
                        Ok(CsvRecipients { recipients, skipped_rows: skipped })
                    }
                },
            }
        },
    }
}

impl CsvFault {
    /// The text of the error.
    pub open spec fn message_spec(self) -> Seq<char> {
        match self {
            CsvFault::UnreadableHeaders => "Failed to read CSV headers"@,
            CsvFault::MissingEmailColumn(e) => e.message_spec(),
            CsvFault::UnreadableRow(i) => "Failed to read CSV row "@ + decimal((i + 2) as nat),
        }
    }

    /// The text of the error; rows are numbered as lines of the file, the
    /// header row being line 1.
    pub fn message(&self) -> (m: String)
        ensures
            m@ == self.message_spec(),
    {
        match self {
            CsvFault::UnreadableHeaders => String::from_str("Failed to read CSV headers"),
            CsvFault::MissingEmailColumn(e) => e.message(),
            CsvFault::UnreadableRow(i) => {
                let mut m = String::from_str("Failed to read CSV row ");
                let digits = decimal_chars(*i as u128 + 2);
                m.append(string_from_chars(&digits).as_str());
                m
            },
        }
    }
}

/// The header row lacks the column that holds the addresses.
#[derive(Debug)]
pub struct MissingEmailColumn {
    pub column: String,
    pub available: Vec<String>,
}

/// `list` joined with `sep` between neighbours.
pub open spec fn join(list: Seq<Seq<char>>, sep: Seq<char>) -> Seq<char>
    decreases list.len(),
{
    if list.len() == 0 {
        seq![]
    } else if list.len() == 1 {
        list[0]
    } else {
        join(list.drop_last(), sep) + sep + list.last()
    }
}

impl MissingEmailColumn {
    /// The text of the error.
    pub open spec fn message_spec(self) -> Seq<char> {
        "Email column '"@ + self.column@ + "' not found in CSV. Available columns: "@ + join(
            string_views(self.available@),
            ", "@,
        )
    }

    /// The text of the error, naming the column and the columns that exist.
    pub fn message(&self) -> (m: String)
        ensures
            m@ == self.message_spec(),
    {
        let ghost list = string_views(self.available@);
        let mut joined = String::new();
        let n = self.available.len();
        for i in 0..n
            invariant
                n == self.available@.len(),
                list == string_views(self.available@),
                joined@ == join(list.take(i as int), ", "@),
        {
            assert(list.take(i + 1).drop_last() =~= list.take(i as int));
            if i > 0 {
                joined.append(", ");
            } else {
                assert(list.take(1) =~= seq![list[0]]);
            }
            joined.append(self.available[i].as_str());
        }
        assert(list.take(n as int) =~= list);
        let mut m = String::from_str("Email column '");
        m.append(self.column.as_str());
        m.append("' not found in CSV. Available columns: ");
        m.append(joined.as_str());
        m
    }
}

/// Whether `list` holds a string equal to `s`.
pub fn contains_string(list: &Vec<String>, s: &String) -> (r: bool)
    ensures
        r == string_views(list@).contains(s@),
{
    let n = list.len();
    for k in 0..n
        invariant
            n == list@.len(),
            forall|j: int| 0 <= j < k ==> list@[j]@ != s@,
    {
        if list[k] == *s {
            assert(string_views(list@)[k as int] == s@);
            return true;
        }
    }
    assert forall|j: int| 0 <= j < string_views(list@).len() implies string_views(list@)[j]
        != s@ by {
        assert(string_views(list@)[j] == list@[j]@);
    }
    false
}

/// Checks that the header row holds the column `email_col`.
pub fn check_email_column(headers: &Vec<String>, email_col: &str) -> (r: Result<
    (),
    MissingEmailColumn,
>)
    ensures
        r is Ok <==> string_views(headers@).contains(email_col@),
        r matches Err(e) ==> e.column@ == email_col@ && string_views(e.available@) == string_views(
            headers@,
        ),
{
    let col = String::from_str(email_col);
    if contains_string(headers, &col) {
        Ok(())
    } else {
        let mut available: Vec<String> = Vec::new();
        let n = headers.len();
        for k in 0..n
            invariant
                n == headers@.len(),
                string_views(available@) =~= string_views(headers@).take(k as int),
        {
            let h = headers[k].clone();
            assert(h@ == string_views(headers@)[k as int]);
            let ghost before = available@;
            available.push(h);
            assert(available@ =~= before.push(h));
            assert(string_views(available@) =~= string_views(before).push(h@));
            assert(string_views(headers@).take(k + 1) =~= string_views(headers@).take(k as int).push(
                string_views(headers@)[k as int],
            ));
            assert(string_views(available@) =~= string_views(headers@).take(k + 1));
        }
        assert(string_views(headers@).take(n as int) =~= string_views(headers@));
        Err(MissingEmailColumn { column: col, available })
    }
}

// ---------------------------------------------------------------------------
// The blacklist.
// ---------------------------------------------------------------------------

/// The blacklist entries of the lines of `s` from position `from` on: each
/// line, split at `\n`, is trimmed and lowercased, and empty entries are dropped.
pub open spec fn blacklist_from(s: Seq<char>, from: int) -> Seq<Seq<char>>
    decreases s.len() - from,
{
    if from < 0 || from > s.len() {
        seq![]
    } else {
        let i = find_from(s, '\n', from);
        let e = lowercase(trim(s.subrange(from, i)));
        let here = if e.len() > 0 {
            seq![e]
        } else {
            seq![]
        };
        if i >= s.len() {
            here
        } else {
            proof {
                lemma_find_from(s, '\n', from);
            }
            here + blacklist_from(s, i + 1)
        }
    }
}

/// The blacklist entries of a text with one address per line.
pub open spec fn blacklist_entries(s: Seq<char>) -> Seq<Seq<char>> {
    blacklist_from(s, 0)
}

/// Reads a blacklist: one email address per line, trimmed and lowercased;
/// blank lines are ignored. Each entry is held once, as in a set.
pub fn blacklist_from_text(content: &str) -> (r: Vec<String>)
    ensures
        string_views(r@).no_duplicates(),
        forall|e: Seq<char>|
            string_views(r@).contains(e) <==> #[trigger] blacklist_entries(content@).contains(e),
{
    broadcast use vstd::seq_lib::group_seq_properties;

    let s = chars_of(content);
    let n = s.len();
    let mut out: Vec<String> = Vec::new();
    let mut from: usize = 0;
    loop
        invariant
            from <= n,
            n == s@.len(),
            s@ == content@,
            string_views(out@).no_duplicates(),
            forall|e: Seq<char>|
                string_views(out@).contains(e) || blacklist_from(s@, from as int).contains(e)
                    <==> #[trigger] blacklist_entries(s@).contains(e),
        decreases n - from,
    {
        let i = find_char_from(&s, '\n', from);
        proof {
            lemma_find_from(s@, '\n', from as int);
        }
        let line = copy_range(&s, from, i);
        let t = trim_chars(&line);
        let e = lowercase_chars(&t);
        let ghost before = string_views(out@);
        let ghost here = if e@.len() > 0 {
            seq![e@]
        } else {
            Seq::<Seq<char>>::empty()
        };
        if e.len() > 0 {
            let es = string_from_chars(&e);
            if !contains_string(&out, &es) {
                out.push(es);
                assert(string_views(out@) =~= before.push(e@));
                assert forall|x: Seq<char>| string_views(out@).contains(x) <==> before.contains(x)
                    || here.contains(x) by {
                    if x == e@ {
                        assert(here[0] == x);
                        assert(string_views(out@)[before.len() as int] == x);
                    }
                    if before.contains(x) {
                        let k = choose|k: int| 0 <= k < before.len() && before[k] == x;
                        assert(string_views(out@)[k] == x);
                    }
                    if string_views(out@).contains(x) && !before.contains(x) {
                        let k = choose|k: int|
                            0 <= k < string_views(out@).len() && string_views(out@)[k] == x;
                        if k < before.len() {
                            assert(before[k] == x);
                        }
                    }
                }
                assert(string_views(out@).no_duplicates()) by {
                    assert forall|a: int, b: int|
                        0 <= a < string_views(out@).len() && 0 <= b < string_views(out@).len()
                            && a != b implies string_views(out@)[a] != string_views(out@)[b] by {
                        if a < before.len() && b < before.len() {
                            assert(before[a] != before[b]);
                        } else if a < before.len() {
                            assert(string_views(out@)[a] == before[a]);
                            if before[a] == e@ {
                                assert(before.contains(e@));
                            }
                        } else if b < before.len() {
                            assert(string_views(out@)[b] == before[b]);
                            if before[b] == e@ {
                                assert(before.contains(e@));
                            }
                        }
                    }
                }
            } else {
                assert(string_views(out@) =~= before);
                assert forall|x: Seq<char>| string_views(out@).contains(x) <==> before.contains(x)
                    || here.contains(x) by {
                    if here.contains(x) {
                        assert(x == e@);
                    }
                }
            }
        } else {
            assert(string_views(out@) =~= before);
            assert forall|x: Seq<char>| string_views(out@).contains(x) <==> before.contains(x)
                || here.contains(x) by {}
        }
        if i >= n {
            assert(blacklist_from(s@, from as int) == here);
            return out;
        }
        assert(blacklist_from(s@, from as int) == here + blacklist_from(s@, i + 1));
        assert forall|x: Seq<char>|
            string_views(out@).contains(x) || blacklist_from(s@, i + 1).contains(x)
                <==> #[trigger] blacklist_entries(s@).contains(x) by {
            vstd::seq_lib::lemma_seq_concat_contains_all_elements(
                here,
                blacklist_from(s@, i + 1),
                x,
            );
        }
        from = i + 1;
    }
}

/// The address is on the blacklist, compared in lowercase.
pub open spec fn is_blacklisted(entries: Seq<Seq<char>>, email: Seq<char>) -> bool {
    entries.contains(lowercase(email))
}

/// The recipients whose address is not on the blacklist, in their order.
pub open spec fn kept(rs: Seq<RecipientView>, entries: Seq<Seq<char>>) -> Seq<RecipientView>
    decreases rs.len(),
{
    if rs.len() == 0 {
        seq![]
    } else {
        let rest = kept(rs.drop_last(), entries);
        if is_blacklisted(entries, rs.last().email) {
            rest
        } else {
            rest.push(rs.last())
        }
    }
}

/// Whether the address, lowercased, is on the blacklist.
pub fn is_on_blacklist(email: &str, blacklist: &Vec<String>) -> (r: bool)
    ensures
        r == is_blacklisted(string_views(blacklist@), email@),
{
    let lower = lowercase_chars(&chars_of(email));
    let lower_s = string_from_chars(&lower);
    contains_string(blacklist, &lower_s)
}

/// Drops the recipients whose lowercased address is on the blacklist, keeping
/// the order of the others.
pub fn filter_blacklisted(recipients: Vec<Recipient>, blacklist: &Vec<String>) -> (r: Vec<
    Recipient,
>)
    ensures
        recipient_views(r@) == kept(recipient_views(recipients@), string_views(blacklist@)),
{
    let ghost all = recipient_views(recipients@);
    let ghost entries = string_views(blacklist@);
    let mut out: Vec<Recipient> = Vec::new();
    for rec in it: recipients
        invariant
            all == recipient_views(it.seq()),
            entries == string_views(blacklist@),
            recipient_views(out@) == kept(all.take(it.index()), entries),
    {
        let ghost idx = it.index();
        assert(all.take(idx + 1).drop_last() =~= all.take(idx));
        assert(all.take(idx + 1).last() == rec@);
        if !is_on_blacklist(rec.email.as_str(), blacklist) {
            let ghost before = recipient_views(out@);
            out.push(rec);
            assert(recipient_views(out@) =~= before.push(rec@));
        }
    }
    assert(all.take(all.len() as int) =~= all);
    out
}

} // verus!

verus! {

// ---------------------------------------------------------------------------
// Laws.
// ---------------------------------------------------------------------------

/// `find_from` runs to the end of a stretch without `c`.
proof fn lemma_find_from_none(s: Seq<char>, c: char, from: int)
    requires
        0 <= from <= s.len(),
        forall|k: int| from <= k < s.len() ==> s[k] != c,
    ensures
        find_from(s, c, from) == s.len(),
    decreases s.len() - from,
{
    if from < s.len() {
        lemma_find_from_none(s, c, from + 1);
    }
}

/// Substitutions that find no column leave the text as it is.
proof fn lemma_substitute_all_unmatched(
    acc: Seq<char>,
    names: Seq<Seq<char>>,
    pairs: Seq<(Seq<char>, Seq<char>)>,
)
    requires
        forall|k: int|
            0 <= k < names.len() ==> (#[trigger] names[k]).len() == 0 || lookup(pairs, names[k])
                is None,
    ensures
        substitute_all(acc, names, pairs) == acc,
    decreases names.len(),
{
    if names.len() > 0 {
        assert(substitute(acc, names[0], pairs) == acc);
        assert forall|k: int|
            0 <= k < names.drop_first().len() implies (#[trigger] names.drop_first()[k]).len() == 0
            || lookup(pairs, names.drop_first()[k]) is None by {
            assert(names.drop_first()[k] == names[k + 1]);
        }
        lemma_substitute_all_unmatched(acc, names.drop_first(), pairs);
    }
}

/// Replacing a pattern that starts with `$` leaves a leading stretch without
/// `$` untouched.
proof fn lemma_replace_skips_plain_prefix(x: Seq<char>, y: Seq<char>, pat: Seq<char>, to: Seq<char>)
    requires
        pat.len() > 0,
        pat[0] == '$',
        !x.contains('$'),
    ensures
        replace_all(x + y, pat, to) == x + replace_all(y, pat, to),
    decreases x.len(),
{
    if x.len() == 0 {
        assert(x + y =~= y);
        assert(x + replace_all(y, pat, to) =~= replace_all(y, pat, to));
    } else {
        let xy = x + y;
        assert(xy[0] == x[0]);
        assert(x[0] != '$') by {
            if x[0] == '$' {
                assert(x.contains('$'));
            }
        }
        assert(!occurs_at(xy, pat, 0)) by {
            if occurs_at(xy, pat, 0) {
                assert(xy.subrange(0, pat.len() as int)[0] == pat[0]);
            }
        }
        assert(xy.drop_first() =~= x.drop_first() + y);
        assert(!x.drop_first().contains('$')) by {
            if x.drop_first().contains('$') {
                let k = choose|k: int| 0 <= k < x.drop_first().len() && x.drop_first()[k] == '$';
                assert(x[k + 1] == '$');
            }
        }
        lemma_replace_skips_plain_prefix(x.drop_first(), y, pat, to);
        assert(replace_all(xy, pat, to) == seq![xy[0]] + replace_all(xy.drop_first(), pat, to));
        assert(x =~= seq![x[0]] + x.drop_first());
        assert(seq![xy[0]] + (x.drop_first() + replace_all(y, pat, to)) =~= x + replace_all(
            y,
            pat,
            to,
        ));
    }
}

/// A template without any `$` comes out of personalization unchanged.
pub proof fn law_template_without_placeholders(t: Seq<char>, pairs: Seq<(Seq<char>, Seq<char>)>)
    requires
        !t.contains('$'),
    ensures
        personalized(t, pairs) == t,
{
    assert forall|k: int| 0 <= k < t.len() implies t[k] != '$' by {
        if t[k] == '$' {
            assert(t.contains('$'));
        }
    }
    lemma_find_from_none(t, '$', 0);
    assert(placeholders(t) =~= Seq::<Seq<char>>::empty());
}

/// Placeholders that have no matching column (or are empty) are left as they
/// stand: if none of them matches, the template comes out unchanged.
pub proof fn law_unmatched_placeholders_kept(t: Seq<char>, pairs: Seq<(Seq<char>, Seq<char>)>)
    requires
        forall|k: int|
            0 <= k < placeholders(t).len() ==> (#[trigger] placeholders(t)[k]).len() == 0
                || lookup(pairs, placeholders(t)[k]) is None,
    ensures
        personalized(t, pairs) == t,
{
    lemma_substitute_all_unmatched(t, placeholders(t), pairs);
}

/// A template with one placeholder `$name$` between text without `$` comes
/// out with the placeholder replaced by the recipient's value for `name`.
pub proof fn law_single_placeholder(
    prefix: Seq<char>,
    name: Seq<char>,
    suffix: Seq<char>,
    pairs: Seq<(Seq<char>, Seq<char>)>,
    value: Seq<char>,
)
    requires
        !prefix.contains('$'),
        !name.contains('$'),
        !suffix.contains('$'),
        name.len() > 0,
        lookup(pairs, name) == Some(value),
    ensures
        personalized(prefix + token(name) + suffix, pairs) == prefix + value + suffix,
{
    let t = prefix + token(name) + suffix;
    let p = prefix.len() as int;
    let q = p + 1 + name.len();
    assert forall|k: int| 0 <= k < p implies t[k] != '$' by {
        assert(t[k] == prefix[k]);
        if prefix[k] == '$' {
            assert(prefix.contains('$'));
        }
    }
    assert(t[p] == '$');
    assert forall|k: int| p + 1 <= k < q implies t[k] != '$' by {
        assert(t[k] == name[k - p - 1]);
        if name[k - p - 1] == '$' {
            assert(name.contains('$'));
        }
    }
    assert(t[q] == '$');
    assert forall|k: int| q + 1 <= k < t.len() implies t[k] != '$' by {
        assert(t[k] == suffix[k - q - 1]);
        if suffix[k - q - 1] == '$' {
            assert(suffix.contains('$'));
        }
    }
    lemma_find_from(t, '$', 0);
    lemma_find_from(t, '$', p + 1);
    assert(find_from(t, '$', 0) == p);
    assert(find_from(t, '$', p + 1) == q);
    lemma_find_from_none(t, '$', q + 1);
    assert(placeholders_from(t, q + 1) =~= Seq::<Seq<char>>::empty());
    assert(t.subrange(p + 1, q) =~= name);
    assert(placeholders(t) =~= seq![name]);
    assert(seq![name].drop_first() =~= Seq::<Seq<char>>::empty());
    let tok = token(name);
    assert(tok[0] == '$');
    assert(t =~= prefix + (tok + suffix));
    lemma_replace_skips_plain_prefix(prefix, tok + suffix, tok, value);
    assert(occurs_at(tok + suffix, tok, 0)) by {
        assert((tok + suffix).subrange(0, tok.len() as int) =~= tok);
    }
    assert((tok + suffix).skip(tok.len() as int) =~= suffix);
    lemma_replace_skips_plain_prefix(suffix, Seq::<char>::empty(), tok, value);
    assert(suffix + Seq::<char>::empty() =~= suffix);
    assert(replace_all(Seq::<char>::empty(), tok, value) =~= Seq::<char>::empty());
    assert(replace_all(tok + suffix, tok, value) == value + suffix);
    assert(prefix + (value + suffix) =~= prefix + value + suffix);
    assert(replace_all(t, tok, value) == prefix + value + suffix);
    assert(substitute(t, name, pairs) == replace_all(t, tok, value));
    assert(substitute_all(t, seq![name], pairs) == substitute_all(
        substitute(t, name, pairs),
        Seq::<Seq<char>>::empty(),
        pairs,
    ));
}

/// Every recipient built from rows has a non-blank address that is its own
/// trim, taken trimmed from its `email_col` column, and holds each header of
/// its row once.
pub proof fn law_recipients_have_addresses(
    headers: Seq<Seq<char>>,
    records: Seq<Seq<Seq<char>>>,
    email_col: Seq<char>,
)
    ensures
        forall|i: int|
            0 <= i < rows_recipients(headers, records, email_col).len() ==> {
                let r = #[trigger] rows_recipients(headers, records, email_col)[i];
                &&& r.email.len() > 0
                &&& r.email == trim(r.email)
                &&& lookup(r.fields, email_col) matches Some(e) && r.email == trim(e)
                &&& keys_distinct(r.fields)
            },
    decreases records.len(),
{
    if records.len() > 0 {
        law_recipients_have_addresses(headers, records.drop_last(), email_col);
        let fields = unique_fields(zip_fields(headers, records.last()));
        lemma_unique_fields(zip_fields(headers, records.last()), email_col);
        if let Some(e) = lookup(fields, email_col) {
            lemma_trim_idempotent(e);
        }
    }
}

/// A row's recipient holds each column of the row, with the value of the
/// header's last column: its fields answer every header as the row does.
pub proof fn law_row_fields_answer_as_the_row(
    headers: Seq<Seq<char>>,
    record: Seq<Seq<char>>,
    email_col: Seq<char>,
    key: Seq<char>,
)
    ensures
        row_recipient(headers, record, email_col) matches Some(r) ==> lookup(r.fields, key)
            == lookup(zip_fields(headers, record), key),
{
    lemma_unique_fields(zip_fields(headers, record), key);
}

/// The blacklist filter keeps exactly the recipients whose lowercased address
/// is not on the list, and keeps them in order: none that it keeps is
/// blacklisted, each that it keeps was given, and every recipient given that
/// is not blacklisted is kept.
pub proof fn law_filter_keeps_exactly_unlisted(rs: Seq<RecipientView>, entries: Seq<Seq<char>>)
    ensures
        forall|i: int|
            0 <= i < kept(rs, entries).len() ==> !is_blacklisted(
                entries,
                (#[trigger] kept(rs, entries)[i]).email,
            ) && rs.contains(kept(rs, entries)[i]),
        forall|j: int|
            0 <= j < rs.len() && !is_blacklisted(entries, (#[trigger] rs[j]).email) ==> kept(
                rs,
                entries,
            ).contains(rs[j]),
        kept(rs, entries).len() <= rs.len(),
    decreases rs.len(),
{
    if rs.len() > 0 {
        let init = rs.drop_last();
        law_filter_keeps_exactly_unlisted(init, entries);
        let rest = kept(init, entries);
        assert forall|i: int| 0 <= i < kept(rs, entries).len() implies !is_blacklisted(
            entries,
            (#[trigger] kept(rs, entries)[i]).email,
        ) && rs.contains(kept(rs, entries)[i]) by {
            if i < rest.len() {
                assert(kept(rs, entries)[i] == rest[i]);
                let k = choose|k: int| 0 <= k < init.len() && init[k] == rest[i];
                assert(rs[k] == init[k]);
            } else {
                assert(rs[rs.len() - 1] == rs.last());
            }
        }
        assert forall|j: int|
            0 <= j < rs.len() && !is_blacklisted(entries, (#[trigger] rs[j]).email) implies kept(
            rs,
            entries,
        ).contains(rs[j]) by {
            if j < rs.len() - 1 {
                assert(init[j] == rs[j]);
                let k = choose|k: int| 0 <= k < rest.len() && rest[k] == init[j];
                assert(kept(rs, entries)[k] == rest[k]);
            } else {
                assert(kept(rs, entries)[kept(rs, entries).len() - 1] == rs.last());
            }
        }
    }
}

/// Each placeholder of a template occurs in it as its token `$name$`.
proof fn lemma_placeholders_occur(t: Seq<char>, from: int)
    ensures
        forall|k: int|
            0 <= k < placeholders_from(t, from).len() ==> contains_seq(
                t,
                token(#[trigger] placeholders_from(t, from)[k]),
            ),
    decreases t.len() - from,
{
    if 0 <= from < t.len() {
        let i = find_from(t, '$', from);
        if i < t.len() {
            lemma_find_from(t, '$', from);
            let j = find_from(t, '$', i + 1);
            lemma_find_from(t, '$', i + 1);
            if j < t.len() {
                lemma_placeholders_occur(t, j + 1);
                let name = t.subrange(i + 1, j);
                let rest = placeholders_from(t, j + 1);
                assert(placeholders_from(t, from) == seq![name] + rest);
                assert(occurs_at(t, token(name), i)) by {
                    assert(t.subrange(i, i + token(name).len()) =~= token(name));
                }
                assert forall|k: int|
                    0 <= k < placeholders_from(t, from).len() implies contains_seq(
                    t,
                    token(#[trigger] placeholders_from(t, from)[k]),
                ) by {
                    if k == 0 {
                        assert(placeholders_from(t, from)[0] == name);
                    } else {
                        assert(placeholders_from(t, from)[k] == rest[k - 1]);
                    }
                }
            }
        }
    }
}

/// A column that `lookup` finds is one of the pairs' headers.
proof fn lemma_lookup_found(pairs: Seq<(Seq<char>, Seq<char>)>, key: Seq<char>)
    ensures
        lookup(pairs, key) is Some ==> exists|k: int| 0 <= k < pairs.len() && #[trigger] pairs[k].0 == key,
    decreases pairs.len(),
{
    if pairs.len() > 0 {
        lemma_lookup_found(pairs.drop_last(), key);
        if pairs.last().0 != key && lookup(pairs, key) is Some {
            let k = choose|k: int| 0 <= k < pairs.drop_last().len() && #[trigger] pairs.drop_last()[k].0 == key;
            assert(pairs[k] == pairs.drop_last()[k]);
        } else if pairs.last().0 == key {
            assert(pairs[pairs.len() - 1].0 == key);
        }
    }
}

/// A template that holds the token `$header$` of none of the recipient's
/// columns comes out of personalization unchanged.
pub proof fn law_no_column_token_unchanged(t: Seq<char>, pairs: Seq<(Seq<char>, Seq<char>)>)
    requires
        forall|k: int| 0 <= k < pairs.len() ==> !contains_seq(t, token(#[trigger] pairs[k].0)),
    ensures
        personalized(t, pairs) == t,
{
    lemma_placeholders_occur(t, 0);
    assert forall|k: int|
        0 <= k < placeholders(t).len() implies (#[trigger] placeholders(t)[k]).len() == 0 || lookup(
        pairs,
        placeholders(t)[k],
    ) is None by {
        let name = placeholders(t)[k];
        lemma_lookup_found(pairs, name);
        if lookup(pairs, name) is Some {
            let j = choose|j: int| 0 <= j < pairs.len() && #[trigger] pairs[j].0 == name;
            assert(contains_seq(t, token(pairs[j].0)));
        }
    }
    law_unmatched_placeholders_kept(t, pairs);
}

/// A row gives a recipient exactly when the value under its address column is
/// not blank, whatever its other cells hold: the recipient's address is that
/// value trimmed, and its fields answer every header as the row does.
pub proof fn law_row_with_address_gives_recipient(
    headers: Seq<Seq<char>>,
    record: Seq<Seq<char>>,
    email_col: Seq<char>,
    key: Seq<char>,
)
    ensures
        row_recipient(headers, record, email_col) is Some <==> (lookup(
            zip_fields(headers, record),
            email_col,
        ) matches Some(e) && trim(e).len() > 0),
        lookup(zip_fields(headers, record), email_col) matches Some(e) ==> (trim(e).len() > 0 ==> (
        row_recipient(headers, record, email_col) matches Some(v) && v.email == trim(e) && lookup(
            v.fields,
            key,
        ) == lookup(zip_fields(headers, record), key))),
{
    lemma_unique_fields(zip_fields(headers, record), email_col);
    lemma_unique_fields(zip_fields(headers, record), key);
}

/// The recipients of a list of rows are its rows whose value under the address
/// column is not blank, one recipient per such row and in row order, each
/// with that value trimmed as its address and the row's columns as its fields.
pub proof fn law_recipients_are_the_rows_with_addresses(
    headers: Seq<Seq<char>>,
    records: Seq<Seq<Seq<char>>>,
    email_col: Seq<char>,
)
    ensures
        rows_recipients(headers, records, email_col) == records.filter(
            |r: Seq<Seq<char>>|
                lookup(zip_fields(headers, r), email_col) matches Some(e) && trim(e).len() > 0,
        ).map_values(
            |r: Seq<Seq<char>>|
                RecipientView {
                    email: trim(lookup(zip_fields(headers, r), email_col)->0),
                    fields: unique_fields(zip_fields(headers, r)),
                },
        ),
    decreases records.len(),
{
    let has = |r: Seq<Seq<char>>|
        lookup(zip_fields(headers, r), email_col) matches Some(e) && trim(e).len() > 0;
    let make = |r: Seq<Seq<char>>|
        RecipientView {
            email: trim(lookup(zip_fields(headers, r), email_col)->0),
            fields: unique_fields(zip_fields(headers, r)),
        };
    reveal(Seq::filter);
    if records.len() > 0 {
        law_recipients_are_the_rows_with_addresses(headers, records.drop_last(), email_col);
        let last = records.last();
        lemma_unique_fields(zip_fields(headers, last), email_col);
        let before = records.drop_last().filter(has);
        if has(last) {
            assert(records.filter(has) == before.push(last));
            assert(before.push(last).map_values(make) =~= before.map_values(make).push(make(last)));
        } else {
            assert(records.filter(has) == before);
        }
    } else {
        assert(records.filter(has).map_values(make) =~= Seq::<RecipientView>::empty());
    }
}

/// The rows reported as skipped are exactly the rows whose value under the
/// address column is missing or blank, by index and in increasing order.
pub proof fn law_skipped_rows_are_the_rows_without_address(
    headers: Seq<Seq<char>>,
    records: Seq<Seq<Seq<char>>>,
    email_col: Seq<char>,
    i: int,
)
    requires
        records.len() <= usize::MAX,
    ensures
        0 <= i < records.len() ==> (skipped_rows(headers, records, email_col).contains(i as usize)
            <==> !(lookup(zip_fields(headers, records[i]), email_col) matches Some(e) && trim(e).len()
            > 0)),
        forall|k: int|
            0 <= k < skipped_rows(headers, records, email_col).len() ==> #[trigger] skipped_rows(
                headers,
                records,
                email_col,
            )[k] < records.len(),
        forall|a: int, b: int|
            0 <= a < b < skipped_rows(headers, records, email_col).len() ==> #[trigger] skipped_rows(
                headers,
                records,
                email_col,
            )[a] < #[trigger] skipped_rows(headers, records, email_col)[b],
    decreases records.len(),
{
    if records.len() > 0 {
        let init = records.drop_last();
        law_skipped_rows_are_the_rows_without_address(headers, init, email_col, i);
        let last = records.last();
        lemma_unique_fields(zip_fields(headers, last), email_col);
        let rest = skipped_rows(headers, init, email_col);
        let all = skipped_rows(headers, records, email_col);
        let has_last = lookup(zip_fields(headers, last), email_col) matches Some(e) && trim(e).len()
            > 0;
        assert(row_recipient(headers, last, email_col) is None <==> !has_last);
        let n = init.len() as usize;
        if !has_last {
            assert(all == rest.push(n));
        } else {
            assert(all == rest);
        }
        if i == init.len() {
            assert(records[i] == last);
            if rest.contains(i as usize) {
                let k = choose|k: int| 0 <= k < rest.len() && rest[k] == i as usize;
                assert(rest[k] < init.len());
            }
            if !has_last {
                assert(all[rest.len() as int] == n);
            }
        } else if 0 <= i < init.len() {
            assert(records[i] == init[i]);
            if !has_last {
                if all.contains(i as usize) {
                    let k = choose|k: int| 0 <= k < all.len() && all[k] == i as usize;
                    if k < rest.len() {
                        assert(rest[k] == all[k]);
                    }
                }
                if rest.contains(i as usize) {
                    let k = choose|k: int| 0 <= k < rest.len() && rest[k] == i as usize;
                    assert(all[k] == rest[k]);
                }
            }
        }
    }
}

/// An address is on the blacklist exactly when its whole lowercased form is
/// one of the entries: a list holding the lowercased form of one address
/// blacklists exactly the addresses with that same lowercased form.
pub proof fn law_blacklist_matches_whole_addresses(
    entries: Seq<Seq<char>>,
    email: Seq<char>,
    other: Seq<char>,
)
    ensures
        is_blacklisted(entries, email) <==> exists|k: int|
            0 <= k < entries.len() && #[trigger] entries[k] == lowercase(email),
        is_blacklisted(seq![lowercase(other)], email) <==> lowercase(other) == lowercase(email),
{
    if is_blacklisted(seq![lowercase(other)], email) {
        let k = choose|k: int| 0 <= k < 1 && seq![lowercase(other)][k] == lowercase(email);
        assert(k == 0);
    }
    if lowercase(other) == lowercase(email) {
        assert(seq![lowercase(other)][0] == lowercase(email));
    }
}

/// `s.subrange(a, b)` is a whole line of `s`: it starts the text or follows a
/// `\n`, ends the text or is followed by one, and holds no `\n` itself.
pub open spec fn is_line(s: Seq<char>, a: int, b: int) -> bool {
    &&& 0 <= a <= b <= s.len()
    &&& (a == 0 || s[a - 1] == '\n')
    &&& (b == s.len() || s[b] == '\n')
    &&& forall|k: int| a <= k < b ==> s[k] != '\n'
}

/// The blacklist entries of a text are exactly its non-blank lines, each
/// trimmed and lowercased whole.
pub proof fn law_blacklist_entries_are_the_lines(s: Seq<char>, e: Seq<char>)
    ensures
        blacklist_entries(s).contains(e) <==> exists|a: int, b: int|
            #[trigger] is_line(s, a, b) && e.len() > 0 && e == lowercase(trim(s.subrange(a, b))),
{
    lemma_blacklist_from_lines(s, 0, e);
}

/// The entries from a line start on are the non-blank lines from there on.
proof fn lemma_blacklist_from_lines(s: Seq<char>, from: int, e: Seq<char>)
    requires
        0 <= from <= s.len(),
        from == 0 || s[from - 1] == '\n',
    ensures
        blacklist_from(s, from).contains(e) <==> exists|a: int, b: int|
            #[trigger] is_line(s, a, b) && a >= from && e.len() > 0 && e == lowercase(
                trim(s.subrange(a, b)),
            ),
    decreases s.len() - from,
{
    let i = find_from(s, '\n', from);
    lemma_find_from(s, '\n', from);
    let first = lowercase(trim(s.subrange(from, i)));
    let here = if first.len() > 0 {
        seq![first]
    } else {
        seq![]
    };
    assert(is_line(s, from, i));
    if i < s.len() {
        lemma_blacklist_from_lines(s, i + 1, e);
        let rest = blacklist_from(s, i + 1);
        assert(blacklist_from(s, from) == here + rest);
        if blacklist_from(s, from).contains(e) {
            let k = choose|k: int| 0 <= k < (here + rest).len() && (here + rest)[k] == e;
            if k >= here.len() {
                assert(rest[k - here.len()] == e);
                assert(rest.contains(e));
            } else {
                assert(e == first);
            }
        }
        if exists|a: int, b: int|
            #[trigger] is_line(s, a, b) && a >= from && e.len() > 0 && e == lowercase(
                trim(s.subrange(a, b)),
            ) {
            let (a, b) = choose|a: int, b: int|
                #[trigger] is_line(s, a, b) && a >= from && e.len() > 0 && e == lowercase(
                    trim(s.subrange(a, b)),
                );
            if a == from {
                if b < i {
                    assert(s[b] == '\n');
                }
                if b > i {
                    assert(s[i] != '\n');
                }
                assert(b == i);
                assert(here[0] == e);
                assert((here + rest)[0] == e);
            } else {
                assert(s[a - 1] == '\n');
                assert(a - 1 >= i);
                assert(rest.contains(e));
                let k = choose|k: int| 0 <= k < rest.len() && rest[k] == e;
                assert((here + rest)[here.len() + k] == e);
            }
        }
    } else {
        assert(blacklist_from(s, from) == here);
        if exists|a: int, b: int|
            #[trigger] is_line(s, a, b) && a >= from && e.len() > 0 && e == lowercase(
                trim(s.subrange(a, b)),
            ) {
            let (a, b) = choose|a: int, b: int|
                #[trigger] is_line(s, a, b) && a >= from && e.len() > 0 && e == lowercase(
                    trim(s.subrange(a, b)),
                );
            if a > from {
                assert(s[a - 1] == '\n');
            }
            assert(a == from);
            if b > i {
                assert(false);
            }
            assert(b == i);
            assert(here[0] == e);
        }
    }
}

} // verus!
