//! The Report Server's read path: route parsing, the HTML rendering of a
//! window of measurements, and the handling of one GET request against the
//! Storage Gateway.
use vstd::prelude::*;
use crate::measurement::{Measurement, MeasurementModel, models};
use crate::numbers::{is_decimal, digits_val, latency_text, parse_u64, push_latency};
use crate::store::{Store, StorageError, query_post, limit_model};

verus! {

/// Rows shown when the request names no window.
pub const DEFAULT_WINDOW: u64 = 600;

/// The intent of a request path's first segment.
#[derive(PartialEq, Eq, Structural, Clone, Copy, Debug)]
pub enum Route {
    DefaultWindow,
    FullHistory,
    WindowOf(u64),
    Invalid,
}

/// How a path segment routes: empty selects the default window, `all` the
/// full history, a decimal number that fits a machine word a window of
/// that many rows, and anything else is invalid.
pub open spec fn route_of(s: Seq<char>) -> Route {
    if s.len() == 0 {
        Route::DefaultWindow
    } else if s == "all"@ {
        Route::FullHistory
    } else if is_decimal(s) && digits_val(s) <= u64::MAX {
        Route::WindowOf(digits_val(s) as u64)
    } else {
        Route::Invalid
    }
}

/// The row limit each route queries with.
pub open spec fn window_of(r: Route) -> Option<int> {
    match r {
        Route::DefaultWindow => Option::Some(DEFAULT_WINDOW as int),
        Route::FullHistory => Option::None,
        Route::WindowOf(n) => Option::Some(n as int),
        Route::Invalid => Option::Some(0),
    }
}

/// Parses the first path segment of a request.
pub fn parse_route(seg: &str) -> (r: Route)
    ensures
        r == route_of(seg@),
{
    let n = seg.unicode_len();
    if n == 0 {
        return Route::DefaultWindow;
    }
    proof {
        reveal_strlit("all");
    }
    if n == 3 && seg.get_char(0) == 'a' && seg.get_char(1) == 'l' && seg.get_char(2) == 'l' {
        proof {
            assert(seg@ =~= "all"@);
        }
        return Route::FullHistory;
    }
    assert(seg@ != "all"@);
    match parse_u64(seg) {
        Option::Some(v) => Route::WindowOf(v),
        Option::None => Route::Invalid,
    }
}

/// One table row of the report: host, time text, and either the latency
/// in milliseconds or the mark for a probe that got no reply.
pub open spec fn row_html(m: MeasurementModel, t: Seq<char>) -> Seq<char> {
    "<tr><td>"@ + m.host + "</td><td>"@ + t + "</td><td>"@ + (if m.missing {
        "NO RESPONSE"@
    } else {
        latency_text(m.latency_us) + " ms"@
    }) + "</td></tr>"@
}

/// The table rows of the report, in the order given.
pub open spec fn rows_html(rows: Seq<MeasurementModel>, ts: Seq<Seq<char>>) -> Seq<char>
    decreases rows.len(),
{
    if rows.len() == 0 {
        Seq::<char>::empty()
    } else {
        rows_html(rows.drop_last(), ts.drop_last()) + row_html(rows.last(), ts.last())
    }
}

pub open spec fn report_header() -> Seq<char> {
    "<html><body><table border=\"1\"><tr><th>Hostname</th><th>Time</th><th>Ping</th></tr>"@
}

pub open spec fn report_footer() -> Seq<char> {
    "</table></body></html>"@
}

/// The whole report document for the given rows and their time texts.
pub open spec fn report_html(rows: Seq<MeasurementModel>, ts: Seq<Seq<char>>) -> Seq<char> {
    report_header() + rows_html(rows, ts) + report_footer()
}

/// The views of a sequence of time texts.
pub open spec fn texts(ts: Seq<String>) -> Seq<Seq<char>> {
    ts.map_values(|t: String| t@)
}

/// Earliest timestamp the report formats: the first second of year 1.
pub const TS_MIN: i64 = -62135596800;

/// Latest timestamp the report formats: the last second of year 9999.
pub const TS_MAX: i64 = 253402300799;

/// A timestamp brought into the formattable calendar range.
pub open spec fn clamped(t: int) -> int {
    if t < TS_MIN as int {
        TS_MIN as int
    } else if t > TS_MAX as int {
        TS_MAX as int
    } else {
        t
    }
}

/// Brings a timestamp into the calendar range of years 1 to 9999 before
/// it is handed to the platform's local-time conversion, which fails (and
/// the time crate then panics) once the local year overflows a C `int`.
pub fn clamp_timestamp(t: i64) -> (r: i64)
    ensures
        r as int == clamped(t as int),
        TS_MIN <= r <= TS_MAX,
{
    if t < TS_MIN {
        TS_MIN
    } else if t > TS_MAX {
        TS_MAX
    } else {
        t
    }
}

/// Relies on `time::at` and `Tm::asctime` of the time crate: the local
/// calendar rendering of a Unix timestamp, such as `Thu Jan  1 00:00:00
/// 1970`. `time::at` panics when libc's `localtime_r` refuses the
/// instant, which happens once the local year overflows a C `int`; the
/// `requires` keeps to years 1 to 9999, where the conversion succeeds in
/// every time zone. The text depends on the machine's time zone, so
/// nothing is claimed of it beyond being non-empty.
#[verifier::external_body]
fn asctime_of(t: i64) -> (r: String)
    requires
        TS_MIN <= t <= TS_MAX,
    ensures
        r@.len() > 0,
{
    let tm = time::at(time::Timespec::new(t, 0));
    format!("{}", tm.asctime())
}

/// The human-readable time text for each row, in order, each non-empty.
/// A timestamp outside the calendar range of years 1 to 9999 is clamped
/// to that range before formatting.
pub fn format_times(rows: &Vec<Measurement>) -> (ts: Vec<String>)
    ensures
        ts@.len() == rows@.len(),
        forall|i: int| 0 <= i < ts@.len() ==> #[trigger] ts@[i]@.len() > 0,
{
    let mut ts: Vec<String> = Vec::new();
    let mut i: usize = 0;
    while i < rows.len()
        invariant
            0 <= i <= rows@.len(),
            ts@.len() == i,
            forall|j: int| 0 <= j < i ==> #[trigger] ts@[j]@.len() > 0,
        decreases rows@.len() - i,
    {
        ts.push(asctime_of(clamp_timestamp(rows[i].timestamp)));
        i = i + 1;
    }
    ts
}

fn push_row(s: &mut String, m: &Measurement, t: &str)
    ensures
        final(s)@ == old(s)@ + row_html(m@, t@),
{
    s.append("<tr><td>");
    s.append(m.host.as_str());
    s.append("</td><td>");
    s.append(t);
    s.append("</td><td>");
    if m.missing {
        s.append("NO RESPONSE");
    } else {
        push_latency(s, m.latency_us);
        s.append(" ms");
    }
    s.append("</td></tr>");
    assert(s@ =~= old(s)@ + row_html(m@, t@));
}

/// Renders the report document for the given rows and their time texts.
/// The result is a function of its arguments alone: for a fixed storage
/// state, repeated rendering produces byte-identical documents.
pub fn render_report(rows: &Vec<Measurement>, times: &Vec<String>) -> (h: String)
    requires
        times@.len() == rows@.len(),
    ensures
        h@ == report_html(models(rows@), texts(times@)),
{
    let ghost rs = models(rows@);
    let ghost tx = texts(times@);
    let mut h = String::new();
    h.append("<html><body><table border=\"1\"><tr><th>Hostname</th><th>Time</th><th>Ping</th></tr>");
    proof {
        assert(rows_html(rs.take(0), tx.take(0)) =~= Seq::<char>::empty());
        assert(h@ =~= report_header() + rows_html(rs.take(0), tx.take(0)));
    }
    let mut i: usize = 0;
    while i < rows.len()
        invariant
            0 <= i <= rows@.len(),
            times@.len() == rows@.len(),
            rs == models(rows@),
            tx == texts(times@),
            h@ == report_header() + rows_html(rs.take(i as int), tx.take(i as int)),
        decreases rows@.len() - i,
    {
        push_row(&mut h, &rows[i], times[i].as_str());
        proof {
            assert(rs.take(i + 1).drop_last() =~= rs.take(i as int));
            assert(tx.take(i + 1).drop_last() =~= tx.take(i as int));
            assert(rs.take(i + 1).last() == rs[i as int]);
            assert(tx.take(i + 1).last() == tx[i as int]);
            assert(h@ =~= report_header() + rows_html(rs.take(i + 1), tx.take(i + 1)));
        }
        i = i + 1;
    }
    h.append("</table></body></html>");
    proof {
        assert(rs.take(rows@.len() as int) =~= rs);
        assert(tx.take(times@.len() as int) =~= tx);
        assert(h@ =~= report_html(rs, tx));
    }
    h
}

/// An HTTP response of the report server: a status code, the full body,
/// and whether the body is an HTML document.
pub struct HttpResponse {
    pub status: u16,
    pub body: String,
    pub html: bool,
}

/// The body is the report document for some newest-first window of the
/// log under the given limit, with one time text per row.
pub open spec fn rendered_report(
    log: Seq<MeasurementModel>,
    limit: Option<int>,
    body: Seq<char>,
) -> bool {
    exists|rows: Seq<MeasurementModel>, ts: Seq<Seq<char>>|
        #![trigger report_html(rows, ts)]
        query_post(log, limit, rows) && ts.len() == rows.len() && body == report_html(rows, ts)
}

/// Answers one GET request: an invalid segment gets a plain 404; any
/// other route queries the store under its window and renders the report.
/// A storage failure is handed back to the caller, which treats it as
/// fatal.
pub fn handle_request(store: &Store, seg: &str) -> (r: Result<HttpResponse, StorageError>)
    ensures
        route_of(seg@) == Route::Invalid ==> (r matches Ok(resp) && resp.status == 404
            && resp.body@ == "404 Not Found"@ && !resp.html),
        route_of(seg@) != Route::Invalid ==> (r matches Ok(resp) ==> resp.status == 200
            && resp.html && rendered_report(store@, window_of(route_of(seg@)), resp.body@)),
{
    let route = parse_route(seg);
    let limit: Option<u64> = match route {
        Route::DefaultWindow => Option::Some(DEFAULT_WINDOW),
        Route::FullHistory => Option::None,
        Route::WindowOf(n) => Option::Some(n),
        Route::Invalid => {
            return Ok(
                HttpResponse {
                    status: 404,
                    body: String::from_str("404 Not Found"),
                    html: false,
                },
            );
        },
    };
    assert(limit_model(limit) == window_of(route));
    let rows = match store.query(limit) {
        Ok(rows) => rows,
        Err(e) => {
            return Err(e);
        },
    };
    let times = format_times(&rows);
    let body = render_report(&rows, &times);
    proof {
        assert(texts(times@).len() == models(rows@).len());
        assert(query_post(store@, window_of(route), models(rows@)) && texts(times@).len()
            == models(rows@).len() && body@ == report_html(models(rows@), texts(times@)));
    }
    Ok(HttpResponse { status: 200, body, html: true })
}

/// Report rendering is idempotent for a fixed storage state: two bodies
/// rendered from the same rows and the same time texts are byte-identical.
pub proof fn lemma_render_idempotent(
    rows: Seq<MeasurementModel>,
    ts: Seq<Seq<char>>,
    b1: Seq<char>,
    b2: Seq<char>,
)
    requires
        b1 == report_html(rows, ts),
        b2 == report_html(rows, ts),
    ensures
        b1 == b2,
{
}

} // verus!
