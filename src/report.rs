use vstd::prelude::*;

use crate::calendar::{chrono_iso_date, iso_date, CalendarDate};
use crate::text::{decimal_text, signed_decimal};

verus! {

/// Name of the field that records when a day's fetch began.
pub const TIMESTAMP_FIELD: &'static str = "extraction_timestamp";

/// One observation of a report: field names and their values, in order.
pub struct ReportRow {
    pub fields: Vec<(String, String)>,
}

/// A row as a sequence of (name, value) texts.
pub type FieldsView = Seq<(Seq<char>, Seq<char>)>;

impl View for ReportRow {
    type V = FieldsView;

    open spec fn view(&self) -> FieldsView {
        Seq::new(self.fields@.len(), |i: int| (self.fields@[i].0@, self.fields@[i].1@))
    }
}

/// `fs` with field `k` set to `v`: its first occurrence is replaced in place,
/// or, where there is none, the field is added at the end.
pub open spec fn with_field(fs: FieldsView, k: Seq<char>, v: Seq<char>) -> FieldsView
    decreases fs.len(),
{
    if fs.len() == 0 {
        seq![(k, v)]
    } else if fs[0].0 == k {
        fs.update(0, (k, v))
    } else {
        seq![fs[0]] + with_field(fs.drop_first(), k, v)
    }
}

proof fn lemma_with_field_at(fs: FieldsView, k: Seq<char>, v: Seq<char>, i: int)
    requires
        0 <= i <= fs.len(),
        forall|j: int| 0 <= j < i ==> (#[trigger] fs[j]).0 != k,
        i < fs.len() ==> fs[i].0 == k,
    ensures
        i < fs.len() ==> with_field(fs, k, v) == fs.update(i, (k, v)),
        i == fs.len() ==> with_field(fs, k, v) == fs.push((k, v)),
    decreases fs.len(),
{
    if fs.len() > 0 && i > 0 {
        let rest = fs.drop_first();
        assert(fs[0].0 != k);
        assert forall|j: int| 0 <= j < i - 1 implies (#[trigger] rest[j]).0 != k by {
            assert(rest[j] == fs[j + 1]);
        }
        lemma_with_field_at(rest, k, v, i - 1);
        if i < fs.len() {
            assert(seq![fs[0]] + rest.update(i - 1, (k, v)) =~= fs.update(i, (k, v)));
        } else {
            assert(seq![fs[0]] + rest.push((k, v)) =~= fs.push((k, v)));
        }
    } else if fs.len() == 0 {
        assert(seq![(k, v)] =~= fs.push((k, v)));
    }
}

impl ReportRow {
    /// Sets field `key` to `value`, replacing an existing value of that field
    /// or adding the field at the end.
    pub fn set_field(&mut self, key: &String, value: &String)
        ensures
            final(self)@ == with_field(old(self)@, key@, value@),
    {
        let n = self.fields.len();
        let mut i: usize = 0;
        while i < n
            invariant
                n == self.fields@.len(),
                self == old(self),
                i <= n,
                forall|j: int| 0 <= j < i ==> (#[trigger] self@[j]).0 != key@,
            decreases n - i,
        {
            if self.fields[i].0 == *key {
                proof {
                    lemma_with_field_at(self@, key@, value@, i as int);
                }
                self.fields.set(i, (key.clone(), value.clone()));
                assert(self@ =~= with_field(old(self)@, key@, value@));
                return ;
            }
            i = i + 1;
        }
        proof {
            lemma_with_field_at(self@, key@, value@, n as int);
        }
        self.fields.push((key.clone(), value.clone()));
        assert(self@ =~= with_field(old(self)@, key@, value@));
    }
}

/// `rows` with the extraction timestamp set on each, in the same order.
pub open spec fn stamped(rows: Seq<FieldsView>, timestamp: int) -> Seq<FieldsView> {
    Seq::new(
        rows.len(),
        |i: int| with_field(rows[i], TIMESTAMP_FIELD@, signed_decimal(timestamp)),
    )
}

/// `fs` holds field `k` with value `v`.
pub open spec fn has_field(fs: FieldsView, k: Seq<char>, v: Seq<char>) -> bool {
    exists|j: int| 0 <= j < fs.len() && #[trigger] fs[j] == (k, v)
}

proof fn lemma_with_field_holds(fs: FieldsView, k: Seq<char>, v: Seq<char>)
    ensures
        has_field(with_field(fs, k, v), k, v),
    decreases fs.len(),
{
    let w = with_field(fs, k, v);
    if fs.len() == 0 || fs[0].0 == k {
        assert(w[0] == (k, v));
    } else {
        let rest = with_field(fs.drop_first(), k, v);
        lemma_with_field_holds(fs.drop_first(), k, v);
        let j = choose|j: int| 0 <= j < rest.len() && #[trigger] rest[j] == (k, v);
        assert(w[j + 1] == rest[j]);
    }
}

/// Every emitted row carries the `extraction_timestamp` field, with the one
/// value that `timestamp` gives, whatever fields the server sent.
pub proof fn lemma_stamped_rows_share_timestamp(rows: Seq<FieldsView>, timestamp: int)
    ensures
        stamped(rows, timestamp).len() == rows.len(),
        forall|i: int|
            0 <= i < rows.len() ==> has_field(
                #[trigger] stamped(rows, timestamp)[i],
                TIMESTAMP_FIELD@,
                signed_decimal(timestamp),
            ),
{
    assert forall|i: int| 0 <= i < rows.len() implies has_field(
        #[trigger] stamped(rows, timestamp)[i],
        TIMESTAMP_FIELD@,
        signed_decimal(timestamp),
    ) by {
        lemma_with_field_holds(rows[i], TIMESTAMP_FIELD@, signed_decimal(timestamp));
    }
}

/// A successful report: totals and the rows in server order.
pub struct ReportResponse {
    pub total: ReportRow,
    pub rows: Vec<ReportRow>,
}

impl ReportResponse {
    pub open spec fn rows_view(&self) -> Seq<FieldsView> {
        Seq::new(self.rows@.len(), |i: int| self.rows@[i]@)
    }

    /// The rows to emit: each row of the response, in the server's order, with
    /// the `extraction_timestamp` field set to `timestamp` as decimal text.
    /// The totals are not forwarded.
    pub fn into_stamped_rows(self, timestamp: i64) -> (r: Vec<ReportRow>)
        ensures
            Seq::new(r@.len(), |i: int| r@[i]@) == stamped(self.rows_view(), timestamp as int),
    {
        let ghost orig = self.rows_view();
        let key = TIMESTAMP_FIELD.to_owned();
        let value = decimal_text(timestamp);
        let mut rows = self.rows;
        let mut out: Vec<ReportRow> = Vec::new();
        let n = rows.len();
        let mut i: usize = 0;
        while i < n
            invariant
                n == orig.len(),
                i <= n,
                rows@.len() == n - i,
                key@ == TIMESTAMP_FIELD@,
                value@ == signed_decimal(timestamp as int),
                forall|j: int| 0 <= j < n - i ==> #[trigger] rows@[j]@ == orig[j + i],
                out@.len() == i,
                forall|j: int| 0 <= j < i ==> #[trigger] out@[j]@ == with_field(
                    orig[j],
                    TIMESTAMP_FIELD@,
                    signed_decimal(timestamp as int),
                ),
            decreases n - i,
        {
            let ghost before = rows@;
            let mut row = rows.remove(0);
            assert(row@ == orig[i as int]);
            assert forall|j: int| 0 <= j < n - (i + 1) implies #[trigger] rows@[j]@ == orig[j + i
                + 1] by {
                assert(rows@[j] == before[j + 1]);
            }
            row.set_field(&key, &value);
            out.push(row);
            i = i + 1;
        }
        assert(Seq::new(out@.len(), |i: int| out@[i]@) =~= stamped(orig, timestamp as int));
        out
    }
}

/// One day's report request.
pub struct ReportQuery {
    pub dimensions: Vec<String>,
    pub metrics: Vec<String>,
    pub format: String,
    pub currency: String,
    pub start_date: String,
    pub end_date: String,
}

/// The texts of a list of strings.
pub open spec fn texts(v: Seq<String>) -> Seq<Seq<char>> {
    Seq::new(v.len(), |i: int| v[i]@)
}

impl ReportQuery {
    /// The request for day `d`: fixed dimensions and metrics, JSON format,
    /// JPY, and `d` as both first and last day of the range.
    pub open spec fn is_for_day(&self, d: CalendarDate) -> bool {
        &&& texts(self.dimensions@) == seq!["AdvertiserId"@, "AdsetId"@, "Day"@]
        &&& texts(self.metrics@) == seq![
            "Clicks"@,
            "Displays"@,
            "AdvertiserCost"@,
            "SalesAllClientAttribution"@,
            "RevenueGeneratedAllClientAttribution"@,
        ]
        &&& self.format@ == "JSON"@
        &&& self.currency@ == "JPY"@
        &&& self.start_date@ == self.end_date@
        &&& 0 <= d.year <= 9999 ==> self.start_date@ == iso_date(d)
    }

    /// The request for the single day `d`.
    pub fn for_day(d: CalendarDate) -> (r: ReportQuery)
        requires
            d.valid(),
        ensures
            r.is_for_day(d),
    {
        let dimensions = vec!["AdvertiserId".to_owned(), "AdsetId".to_owned(), "Day".to_owned()];
        let metrics = vec![
            "Clicks".to_owned(),
            "Displays".to_owned(),
            "AdvertiserCost".to_owned(),
            "SalesAllClientAttribution".to_owned(),
            "RevenueGeneratedAllClientAttribution".to_owned(),
        ];
        let start_date = chrono_iso_date(d);
        let end_date = start_date.clone();
        let r = ReportQuery {
            dimensions,
            metrics,
            format: "JSON".to_owned(),
            currency: "JPY".to_owned(),
            start_date,
            end_date,
        };
        assert(texts(r.dimensions@) =~= seq!["AdvertiserId"@, "AdsetId"@, "Day"@]);
        assert(texts(r.metrics@) =~= seq![
            "Clicks"@,
            "Displays"@,
            "AdvertiserCost"@,
            "SalesAllClientAttribution"@,
            "RevenueGeneratedAllClientAttribution"@,
        ]);
        r
    }
}


/// The byte-order mark, U+FEFF.
pub open spec fn byte_order_mark() -> char {
    '\u{feff}'
}

/// `s` without its leading byte-order marks.
pub open spec fn strip_bom(s: Seq<char>) -> Seq<char>
    decreases s.len(),
{
    if s.len() > 0 && s[0] == byte_order_mark() {
        strip_bom(s.drop_first())
    } else {
        s
    }
}

/// A leading byte-order mark makes no difference to the text that is parsed.
pub proof fn lemma_bom_ignored(s: Seq<char>)
    ensures
        strip_bom(seq![byte_order_mark()] + s) == strip_bom(s),
{
    assert((seq![byte_order_mark()] + s).drop_first() =~= s);
}

/// Relies on `str::trim_start_matches` with a `char` pattern: every leading
/// occurrence of the character is removed.
#[verifier::external_body]
fn trim_leading_bom(s: &str) -> (r: &str)
    ensures
        r@ == strip_bom(s@),
{
    s.trim_start_matches('\u{feff}')
}

/// How a report response with a status is to be taken.
pub enum ResponseClass {
    /// Success status: the body text to parse, byte-order marks stripped.
    Report(String),
    /// The credential was rejected.
    AuthExpired { status: u16, body: String },
    /// Any other status.
    OtherFailure { status: u16, body: String },
}

pub const STATUS_OK: u16 = 200;

pub const STATUS_UNAUTHORIZED: u16 = 401;

/// Sorts a response by its status: 200 is a report to parse, 401 a rejected
/// credential, anything else another failure; failures keep status and body.
pub fn classify_response(status: u16, body: &str) -> (r: ResponseClass)
    ensures
        status == STATUS_OK ==> (r matches ResponseClass::Report(t) && t@ == strip_bom(body@)),
        status == STATUS_UNAUTHORIZED ==> (r matches ResponseClass::AuthExpired { status: s, body: b }
            && s == status && b@ == body@),
        status != STATUS_OK && status != STATUS_UNAUTHORIZED ==> (
        r matches ResponseClass::OtherFailure { status: s, body: b } && s == status && b@
            == body@),
{
    if status == STATUS_OK {
        ResponseClass::Report(trim_leading_bom(body).to_owned())
    } else if status == STATUS_UNAUTHORIZED {
        ResponseClass::AuthExpired { status, body: body.to_owned() }
    } else {
        ResponseClass::OtherFailure { status, body: body.to_owned() }
    }
}

} // verus!
