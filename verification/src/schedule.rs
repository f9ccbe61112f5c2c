//! Active hours and bandwidth windows, globally and per folder.
use vstd::prelude::*;

use crate::error::{Result, SyncwebError};
use crate::parsing::{config_error, eq_lit};
use crate::text::{concat_chars, string_of,
    chars_eq, chars_of, decimal, decimal_chars, lower, lower_chars, parse_u16, parse_u16_spec,
    parse_u64, parse_u64_spec, slice_chars, split_once, split_once_chars, strip_suffix,
    strip_suffix_chars, trim, trim_chars,
};

verus! {

/// The schedule section of the configuration file.
///
/// `folders` lists per-folder settings by folder name; each folder is named
/// once, and a configuration that names one twice is refused.
#[derive(Clone, Debug)]
pub struct ScheduleConfig {
    pub active_hours: String,
    pub bandwidth: Vec<BandwidthWindowConfig>,
    pub folders: Vec<(String, ScheduleFolderConfig)>,
}

impl Default for ScheduleConfig {
    fn default() -> (c: Self)
        ensures
            c.active_hours@.len() == 0,
            c.bandwidth@.len() == 0,
            c.folders@.len() == 0,
    {
        ScheduleConfig { active_hours: String::new(), bandwidth: Vec::new(), folders: Vec::new() }
    }
}

/// A bandwidth window as written in the configuration file.
#[derive(Clone, Debug)]
pub struct BandwidthWindowConfig {
    pub hours: String,
    pub max_upload: String,
    pub max_download: String,
}

impl Default for BandwidthWindowConfig {
    fn default() -> (c: Self)
        ensures
            c.hours@ == "00:00-24:00"@,
            c.max_upload@ == "0"@,
            c.max_download@ == "0"@,
    {
        BandwidthWindowConfig {
            hours: "00:00-24:00".to_string(),
            max_upload: unlimited_rate(),
            max_download: unlimited_rate(),
        }
    }
}

impl BandwidthWindowConfig {
    pub fn new(hours: &str, max_upload: &str, max_download: &str) -> (c: Self)
        ensures
            c.hours@ == hours@,
            c.max_upload@ == max_upload@,
            c.max_download@ == max_download@,
    {
        BandwidthWindowConfig {
            hours: hours.to_string(),
            max_upload: max_upload.to_string(),
            max_download: max_download.to_string(),
        }
    }
}

/// Per-folder settings; a missing field inherits the global schedule.
#[derive(Clone, Debug)]
pub struct ScheduleFolderConfig {
    pub active_hours: Option<String>,
    pub max_upload: Option<String>,
    pub max_download: Option<String>,
}

impl Default for ScheduleFolderConfig {
    fn default() -> (c: Self)
        ensures
            c.active_hours is None,
            c.max_upload is None,
            c.max_download is None,
    {
        ScheduleFolderConfig { active_hours: None, max_upload: None, max_download: None }
    }
}

/// The rate that means "no limit".
pub fn unlimited_rate() -> (s: String)
    ensures
        s@ == "0"@,
{
    "0".to_string()
}

/// A half-open interval of minutes after midnight; a window whose start is
/// after its end wraps past midnight, and one whose ends are equal covers
/// the whole day.
#[derive(Clone, Copy, Debug, PartialEq, Eq, Structural)]
pub struct TimeWindow {
    start: u16,
    end: u16,
}

impl View for TimeWindow {
    type V = (u16, u16);

    closed spec fn view(&self) -> (u16, u16) {
        (self.start, self.end)
    }
}

/// Whether the window `(start, end)` contains `minute`.
pub open spec fn window_contains(w: (u16, u16), minute: u16) -> bool {
    if w.0 == w.1 {
        true
    } else if w.0 < w.1 {
        w.0 <= minute && minute < w.1
    } else {
        minute >= w.0 || minute < w.1
    }
}

/// Minutes after midnight denoted by `HH:MM` (24:00 included).
pub open spec fn parse_clock_spec(s: Seq<char>) -> Option<u16> {
    match split_once(trim(s), ':') {
        None => None,
        Some((h, m)) => match (parse_u16_spec(h), parse_u16_spec(m)) {
            (Some(hv), Some(mv)) => if hv > 24 || mv > 59 || (hv == 24 && mv != 0) {
                None
            } else {
                Some((hv * 60 + mv) as u16)
            },
            _ => None,
        },
    }
}

/// `TimeWindow::parse`: `None` on error, `Some(None)` for an empty
/// interval, else the window's `(start, end)`.
pub open spec fn parse_window_spec(s: Seq<char>) -> Option<Option<(u16, u16)>> {
    let t = trim(s);
    if t.len() == 0 {
        Some(None)
    } else {
        match split_once(t, '-') {
            None => None,
            Some((a, b)) => match (parse_clock_spec(a), parse_clock_spec(b)) {
                (Some(x), Some(y)) => Some(Some((x, y))),
                _ => None,
            },
        }
    }
}

/// At least two decimal digits, as `{:02}` writes them.
pub open spec fn two_digits(n: nat) -> Seq<char> {
    if n < 10 {
        seq!['0'] + decimal(n)
    } else {
        decimal(n)
    }
}

/// The `HH:MM` text of a minute count.
pub open spec fn clock_text(m: u16) -> Seq<char> {
    two_digits((m / 60) as nat) + seq![':'] + two_digits((m % 60) as nat)
}

/// The `HH:MM-HH:MM` text of a window.
pub open spec fn window_text(w: (u16, u16)) -> Seq<char> {
    clock_text(w.0) + seq!['-'] + clock_text(w.1)
}

pub open spec fn opt_window(o: Option<TimeWindow>) -> Option<(u16, u16)> {
    match o {
        Some(w) => Some(w@),
        None => None,
    }
}

fn two_digits_chars(n: u16) -> (r: Vec<char>)
    ensures
        r@ == two_digits(n as nat),
{
    let d = decimal_chars(n as u64);
    if n < 10 {
        let mut r: Vec<char> = Vec::new();
        r.push('0');
        let mut i: usize = 0;
        while i < d.len()
            invariant
                i <= d.len(),
                r@ == seq!['0'] + d@.subrange(0, i as int),
            decreases d.len() - i,
        {
            r.push(d[i]);
            i += 1;
            assert(r@ =~= seq!['0'] + d@.subrange(0, i as int));
        }
        assert(d@.subrange(0, d@.len() as int) =~= d@);
        r
    } else {
        d
    }
}

fn push_all(r: &mut Vec<char>, s: &[char])
    ensures
        final(r)@ == old(r)@ + s@,
{
    let mut i: usize = 0;
    let ghost start = r@;
    while i < s.len()
        invariant
            i <= s.len(),
            r@ == start + s@.subrange(0, i as int),
        decreases s.len() - i,
    {
        r.push(s[i]);
        i += 1;
        assert(r@ =~= start + s@.subrange(0, i as int));
    }
    assert(s@.subrange(0, s@.len() as int) =~= s@);
}

fn clock_text_chars(m: u16) -> (r: Vec<char>)
    ensures
        r@ == clock_text(m),
{
    let mut r = two_digits_chars(m / 60);
    r.push(':');
    let tail = two_digits_chars(m % 60);
    push_all(&mut r, &tail);
    r
}

impl TimeWindow {
    /// Parse a `HH:MM-HH:MM` interval; an empty interval means all day.
    pub fn parse(value: &str) -> (r: Result<Option<TimeWindow>>)
        ensures
            r is Ok <==> parse_window_spec(value@) is Some,
            r is Ok ==> opt_window(r->Ok_0) == parse_window_spec(value@)->0,
            r is Err ==> r->Err_0 is InvalidConfig,
    {
        let v = chars_of(value);
        Self::parse_chars(&v)
    }

    fn parse_chars(v: &[char]) -> (r: Result<Option<TimeWindow>>)
        ensures
            r is Ok <==> parse_window_spec(v@) is Some,
            r is Ok ==> opt_window(r->Ok_0) == parse_window_spec(v@)->0,
            r is Err ==> r->Err_0 is InvalidConfig,
    {
        let t = trim_chars(v);
        if t.len() == 0 {
            return Ok(None);
        }
        match split_once_chars(&t, '-') {
            None => Err(config_error("invalid schedule hours; expected HH:MM-HH:MM: ", &t)),
            Some((a, b)) => {
                let start = clock_chars(&a)?;
                let end = clock_chars(&b)?;
                Ok(Some(TimeWindow { start, end }))
            },
        }
    }

    /// Whether the window contains the minute after midnight.
    pub fn contains(self, minute: u16) -> (b: bool)
        ensures
            b == window_contains(self@, minute),
    {
        if self.start == self.end {
            return true;
        }
        if self.start < self.end {
            minute >= self.start && minute < self.end
        } else {
            minute >= self.start || minute < self.end
        }
    }

    pub fn start(self) -> (m: u16)
        ensures
            m == self@.0,
    {
        self.start
    }

    pub fn end(self) -> (m: u16)
        ensures
            m == self@.1,
    {
        self.end
    }

    /// The window as `HH:MM-HH:MM`.
    pub fn to_string(&self) -> (s: String)
        ensures
            s@ == window_text(self@),
    {
        let mut r = clock_text_chars(self.start);
        r.push('-');
        let tail = clock_text_chars(self.end);
        push_all(&mut r, &tail);
        crate::text::string_of(&r)
    }
}

/// Parse `HH:MM` to minutes after midnight; `24:00` is the end of the day.
pub fn parse_clock(value: &str) -> (r: Result<u16>)
    ensures
        r is Ok <==> parse_clock_spec(value@) is Some,
        r is Ok ==> r->Ok_0 == parse_clock_spec(value@)->0,
        r is Err ==> r->Err_0 is InvalidConfig,
{
    let v = chars_of(value);
    clock_chars(&v)
}

fn clock_chars(v: &[char]) -> (r: Result<u16>)
    ensures
        r is Ok <==> parse_clock_spec(v@) is Some,
        r is Ok ==> r->Ok_0 == parse_clock_spec(v@)->0,
        r is Err ==> r->Err_0 is InvalidConfig,
{
    let t = trim_chars(v);
    let (hour_text, minute_text) = match split_once_chars(&t, ':') {
        Some(p) => p,
        None => return Err(config_error("invalid schedule time; expected HH:MM: ", v)),
    };
    let hour_value = match parse_u16(&hour_text) {
        Some(h) => h,
        None => return Err(config_error("invalid schedule hour: ", v)),
    };
    let minute_value = match parse_u16(&minute_text) {
        Some(m) => m,
        None => return Err(config_error("invalid schedule minute: ", v)),
    };
    if hour_value > 24 || minute_value > 59 || (hour_value == 24 && minute_value != 0) {
        return Err(config_error("schedule time is outside the 24-hour clock: ", v));
    }
    Ok(hour_value * 60 + minute_value)
}

/// Split a lower-cased rate into its number and multiplier.
pub open spec fn split_rate_suffix_spec(t: Seq<char>) -> (Seq<char>, u64) {
    if let Some(r) = strip_suffix(t, "kib"@) {
        (r, 1024)
    } else if let Some(r) = strip_suffix(t, "mib"@) {
        (r, 1048576)
    } else if let Some(r) = strip_suffix(t, "gib"@) {
        (r, 1073741824)
    } else if let Some(r) = strip_suffix(t, "kb"@) {
        (r, 1000)
    } else if let Some(r) = strip_suffix(t, "mb"@) {
        (r, 1000000)
    } else if let Some(r) = strip_suffix(t, "gb"@) {
        (r, 1000000000)
    } else if let Some(r) = strip_suffix(t, "b"@) {
        (r, 1)
    } else {
        (t, 1)
    }
}

/// `parse_rate`: `None` on error, `Some(None)` for no limit, else the
/// bytes per second.
pub open spec fn parse_rate_spec(s: Seq<char>) -> Option<Option<u64>> {
    let n = lower(trim(s));
    if n.len() == 0 || n == "0"@ || n == "unlimited"@ {
        Some(None)
    } else {
        let rn = trim(
            match strip_suffix(n, "/s"@) {
                Some(x) => x,
                None => n,
            },
        );
        let (num, mult) = split_rate_suffix_spec(rn);
        match parse_u64_spec(trim(num)) {
            Some(a) => if a * mult <= u64::MAX {
                Some(Some((a * mult) as u64))
            } else {
                None
            },
            None => None,
        }
    }
}

/// Split a rate such as `5mb` into its number and byte multiplier.
pub fn split_rate_suffix(value: &[char]) -> (r: (Vec<char>, u64))
    ensures
        (r.0@, r.1) == split_rate_suffix_spec(value@),
{
    if let Some(r) = strip_suffix_chars(value, &chars_of("kib")) {
        return (r, 1024);
    }
    if let Some(r) = strip_suffix_chars(value, &chars_of("mib")) {
        return (r, 1048576);
    }
    if let Some(r) = strip_suffix_chars(value, &chars_of("gib")) {
        return (r, 1073741824);
    }
    if let Some(r) = strip_suffix_chars(value, &chars_of("kb")) {
        return (r, 1000);
    }
    if let Some(r) = strip_suffix_chars(value, &chars_of("mb")) {
        return (r, 1000000);
    }
    if let Some(r) = strip_suffix_chars(value, &chars_of("gb")) {
        return (r, 1000000000);
    }
    if let Some(r) = strip_suffix_chars(value, &chars_of("b")) {
        return (r, 1);
    }
    (slice_chars(value, 0, value.len()), 1)
}

/// Parse a byte-per-second rate such as `5MB/s`, `500KB/s`, or `0`;
/// `0`, `unlimited` and the empty string mean no limit.
pub fn parse_rate(value: &str) -> (r: Result<Option<u64>>)
    ensures
        r is Ok <==> parse_rate_spec(value@) is Some,
        r is Ok ==> r->Ok_0 == parse_rate_spec(value@)->0,
        r is Err ==> r->Err_0 is InvalidConfig,
{
    let v = chars_of(value);
    rate_chars(&v)
}

fn rate_chars(v: &[char]) -> (r: Result<Option<u64>>)
    ensures
        r is Ok <==> parse_rate_spec(v@) is Some,
        r is Ok ==> r->Ok_0 == parse_rate_spec(v@)->0,
        r is Err ==> r->Err_0 is InvalidConfig,
{
    let n = lower_chars(&trim_chars(v));
    if n.len() == 0 || eq_lit(&n, "0") || eq_lit(&n, "unlimited") {
        return Ok(None);
    }
    let stripped = match strip_suffix_chars(&n, &chars_of("/s")) {
        Some(x) => x,
        None => slice_chars(&n, 0, n.len()),
    };
    assert(n@.subrange(0, n@.len() as int) =~= n@);
    let rn = trim_chars(&stripped);
    let (num, mult) = split_rate_suffix(&rn);
    let amount = match parse_u64(&trim_chars(&num)) {
        Some(a) => a,
        None => return Err(config_error("invalid bandwidth rate; expected a whole number with an optional B/s suffix: ", v)),
    };
    match amount.checked_mul(mult) {
        Some(x) => Ok(Some(x)),
        None => Err(config_error("bandwidth rate is too large: ", v)),
    }
}

/// A parsed bandwidth window.
#[derive(Clone, Copy, Debug, PartialEq, Eq, Structural)]
pub struct BandwidthWindow {
    pub hours: TimeWindow,
    pub max_upload: Option<u64>,
    pub max_download: Option<u64>,
}

/// Parsed schedule settings for one scope.
#[derive(Clone, Debug)]
pub struct Schedule {
    pub active_hours: Option<TimeWindow>,
    pub bandwidth: Vec<BandwidthWindow>,
}

/// Effective limits at a point in time; `None` means unlimited.
#[derive(Clone, Copy, Debug, PartialEq, Eq, Structural)]
pub struct BandwidthLimits {
    pub max_upload: Option<u64>,
    pub max_download: Option<u64>,
}

impl Default for BandwidthLimits {
    fn default() -> (l: Self)
        ensures
            l.max_upload is None,
            l.max_download is None,
    {
        BandwidthLimits { max_upload: None, max_download: None }
    }
}

/// One folder's parsed overrides; a flag says whether the field was set.
#[derive(Clone, Copy, Debug, PartialEq, Eq, Structural)]
pub struct FolderSchedule {
    pub active_hours: Option<TimeWindow>,
    pub active_hours_override: bool,
    pub max_upload: Option<u64>,
    pub max_upload_override: bool,
    pub max_download: Option<u64>,
    pub max_download_override: bool,
}

/// Evaluates the global schedule and the per-folder overrides.
#[derive(Debug)]
pub struct ScheduleManager {
    global: Schedule,
    folders: Vec<(String, FolderSchedule)>,
}

/// The model of a schedule manager: its global schedule and its folders in
/// order.
pub struct ScheduleModel {
    pub active_hours: Option<(u16, u16)>,
    pub bandwidth: Seq<BandwidthWindow>,
    pub folders: Seq<(Seq<char>, FolderSchedule)>,
}

impl ScheduleManager {
    /// Each folder is named once.
    #[verifier::type_invariant]
    closed spec fn folders_named_once(self) -> bool {
        folder_names_unique(schedule_folder_names(self.folders@))
    }
}

/// The folder names of a manager's folders, in order.
pub open spec fn schedule_folder_names(fs: Seq<(String, FolderSchedule)>) -> Seq<Seq<char>> {
    fs.map_values(|p: (String, FolderSchedule)| p.0@)
}

impl View for ScheduleManager {
    type V = ScheduleModel;

    closed spec fn view(&self) -> ScheduleModel {
        ScheduleModel {
            active_hours: opt_window(self.global.active_hours),
            bandwidth: self.global.bandwidth@,
            folders: self.folders@.map_values(|p: (String, FolderSchedule)| (p.0@, p.1)),
        }
    }
}

/// The settings of the first folder entry named `name`.
pub open spec fn find_folder(fs: Seq<(Seq<char>, FolderSchedule)>, name: Seq<char>) -> Option<
    FolderSchedule,
>
    decreases fs.len(),
{
    if fs.len() == 0 {
        None
    } else if fs[0].0 == name {
        Some(fs[0].1)
    } else {
        find_folder(fs.drop_first(), name)
    }
}

pub open spec fn opt_str(o: Option<&str>) -> Option<Seq<char>> {
    match o {
        Some(s) => Some(s@),
        None => None,
    }
}

pub open spec fn folder_entry(m: ScheduleModel, folder: Option<Seq<char>>) -> Option<FolderSchedule> {
    match folder {
        Some(n) => find_folder(m.folders, n),
        None => None,
    }
}

/// The active hours that apply to `folder`: its own when it sets them (an
/// empty interval there means all day), else the global ones.
pub open spec fn selected_hours(m: ScheduleModel, folder: Option<Seq<char>>) -> Option<(u16, u16)> {
    match folder_entry(m, folder) {
        Some(fs) => if fs.active_hours_override {
            opt_window(fs.active_hours)
        } else {
            m.active_hours
        },
        None => m.active_hours,
    }
}

/// Whether `folder` is active at `minute`.
pub open spec fn active_at(m: ScheduleModel, folder: Option<Seq<char>>, minute: u16) -> bool {
    match selected_hours(m, folder) {
        None => true,
        Some(w) => window_contains(w, minute),
    }
}

/// The limits of the first bandwidth window containing `minute`.
pub open spec fn first_limits(ws: Seq<BandwidthWindow>, minute: u16) -> BandwidthLimits
    decreases ws.len(),
{
    if ws.len() == 0 {
        BandwidthLimits { max_upload: None, max_download: None }
    } else if window_contains(ws[0].hours@, minute) {
        BandwidthLimits { max_upload: ws[0].max_upload, max_download: ws[0].max_download }
    } else {
        first_limits(ws.drop_first(), minute)
    }
}

/// The limits that apply to `folder` at `minute`.
pub open spec fn limits_at(m: ScheduleModel, folder: Option<Seq<char>>, minute: u16) -> BandwidthLimits {
    let base = first_limits(m.bandwidth, minute);
    match folder_entry(m, folder) {
        Some(fs) => BandwidthLimits {
            max_upload: if fs.max_upload_override {
                fs.max_upload
            } else {
                base.max_upload
            },
            max_download: if fs.max_download_override {
                fs.max_download
            } else {
                base.max_download
            },
        },
        None => base,
    }
}

/// `minute + k` saturated at `u16::MAX`, reduced to the day.
pub open spec fn candidate_minute(minute: u16, k: nat) -> u16 {
    ((if minute + k > u16::MAX {
        u16::MAX as int
    } else {
        minute + k
    }) % 1440) as u16
}

/// The first candidate at offset `k` or later (up to a day) inside `w`.
pub open spec fn first_active_from(w: (u16, u16), minute: u16, k: nat) -> Option<u16>
    decreases 1441 - k,
{
    if k > 1440 {
        None
    } else if window_contains(w, candidate_minute(minute, k)) {
        Some(candidate_minute(minute, k))
    } else {
        first_active_from(w, minute, k + 1)
    }
}

/// The next minute, from `minute` on, at which `folder` is active.
pub open spec fn next_active_spec(m: ScheduleModel, folder: Option<Seq<char>>, minute: u16) -> Option<u16> {
    match selected_hours(m, folder) {
        None => None,
        Some(w) => if window_contains(w, minute) {
            Some(minute)
        } else {
            first_active_from(w, minute, 1)
        },
    }
}

/// A bandwidth window configuration that parses.
pub open spec fn window_config_valid(c: BandwidthWindowConfig) -> bool {
    &&& parse_window_spec(c.hours@) matches Some(Some(_))
    &&& parse_rate_spec(c.max_upload@) is Some
    &&& parse_rate_spec(c.max_download@) is Some
}

/// `w` is what the configuration `c` parses to.
pub open spec fn window_config_matches(c: BandwidthWindowConfig, w: BandwidthWindow) -> bool {
    &&& parse_window_spec(c.hours@) == Some(Some(w.hours@))
    &&& parse_rate_spec(c.max_upload@) == Some(w.max_upload)
    &&& parse_rate_spec(c.max_download@) == Some(w.max_download)
}

pub open spec fn opt_hours_valid(o: Option<String>) -> bool {
    match o {
        Some(s) => parse_window_spec(s@) is Some,
        None => true,
    }
}

pub open spec fn opt_rate_valid(o: Option<String>) -> bool {
    match o {
        Some(s) => parse_rate_spec(s@) is Some,
        None => true,
    }
}

/// A folder configuration that parses.
pub open spec fn folder_config_valid(c: ScheduleFolderConfig) -> bool {
    opt_hours_valid(c.active_hours) && opt_rate_valid(c.max_upload) && opt_rate_valid(
        c.max_download,
    )
}

/// `f` is what the folder configuration `c` parses to.
pub open spec fn folder_config_matches(c: ScheduleFolderConfig, f: FolderSchedule) -> bool {
    &&& match c.active_hours {
        Some(s) => f.active_hours_override && parse_window_spec(s@) == Some(opt_window(f.active_hours)),
        None => !f.active_hours_override && f.active_hours is None,
    }
    &&& match c.max_upload {
        Some(s) => f.max_upload_override && parse_rate_spec(s@) == Some(f.max_upload),
        None => !f.max_upload_override && f.max_upload is None,
    }
    &&& match c.max_download {
        Some(s) => f.max_download_override && parse_rate_spec(s@) == Some(f.max_download),
        None => !f.max_download_override && f.max_download is None,
    }
}

/// Every part of a schedule (global hours and bandwidth windows) parses.
pub open spec fn schedule_valid(active_hours: Seq<char>, bw: Seq<BandwidthWindowConfig>) -> bool {
    &&& parse_window_spec(active_hours) is Some
    &&& forall|i: int| 0 <= i < bw.len() ==> window_config_valid(#[trigger] bw[i])
}

/// `s` is what the schedule parts parse to.
pub open spec fn schedule_matches(
    active_hours: Seq<char>,
    bw: Seq<BandwidthWindowConfig>,
    s: Schedule,
) -> bool {
    &&& parse_window_spec(active_hours) == Some(opt_window(s.active_hours))
    &&& s.bandwidth@.len() == bw.len()
    &&& forall|i: int| 0 <= i < bw.len() ==> window_config_matches(#[trigger] bw[i], s.bandwidth@[i])
}

/// No folder name is listed twice.
pub open spec fn folder_names_unique(names: Seq<Seq<char>>) -> bool {
    forall|i: int, j: int| 0 <= i < j < names.len() ==> #[trigger] names[i] != #[trigger] names[j]
}

/// The folder names of a configuration, in order.
pub open spec fn config_folder_names(c: ScheduleConfig) -> Seq<Seq<char>> {
    c.folders@.map_values(|p: (String, ScheduleFolderConfig)| p.0@)
}

/// Every part of a schedule configuration parses, and each folder is named
/// once (as in the configuration file's table of folders).
pub open spec fn config_valid(c: ScheduleConfig) -> bool {
    &&& schedule_valid(c.active_hours@, c.bandwidth@)
    &&& forall|j: int| 0 <= j < c.folders@.len() ==> folder_config_valid(#[trigger] c.folders@[j].1)
    &&& folder_names_unique(config_folder_names(c))
}

/// `m` is the model of the manager built from the configuration `c`.
pub open spec fn manager_matches(c: ScheduleConfig, m: ScheduleModel) -> bool {
    &&& parse_window_spec(c.active_hours@) == Some(m.active_hours)
    &&& m.bandwidth.len() == c.bandwidth@.len()
    &&& (forall|i: int| 0 <= i < c.bandwidth@.len() ==> window_config_matches(#[trigger] c.bandwidth@[i], m.bandwidth[i]))
    &&& m.folders.len() == c.folders@.len()
    &&& forall|j: int|
        0 <= j < c.folders@.len() ==> (#[trigger] m.folders[j]).0 == c.folders@[j].0@
            && folder_config_matches(c.folders@[j].1, m.folders[j].1)
}

fn parse_window_config(c: &BandwidthWindowConfig) -> (r: Result<BandwidthWindow>)
    ensures
        r is Ok <==> window_config_valid(*c),
        r is Ok ==> window_config_matches(*c, r->Ok_0),
        r is Err ==> r->Err_0 is InvalidConfig,
{
    let hours = match TimeWindow::parse(c.hours.as_str())? {
        Some(h) => h,
        None => {
            return Err(
                SyncwebError::InvalidConfig(
                    "bandwidth windows must specify a non-empty hours interval".to_string(),
                ),
            )
        },
    };
    let max_upload = parse_rate(c.max_upload.as_str())?;
    let max_download = parse_rate(c.max_download.as_str())?;
    Ok(BandwidthWindow { hours, max_upload, max_download })
}

/// Parse one scope's active hours and bandwidth windows.
pub fn parse_schedule(active_hours: &str, bandwidth_configs: &[BandwidthWindowConfig]) -> (r: Result<
    Schedule,
>)
    ensures
        r is Ok <==> schedule_valid(active_hours@, bandwidth_configs@),
        r is Ok ==> schedule_matches(active_hours@, bandwidth_configs@, r->Ok_0),
        r is Err ==> r->Err_0 is InvalidConfig,
{
    let mut bandwidth: Vec<BandwidthWindow> = Vec::new();
    let mut i: usize = 0;
    while i < bandwidth_configs.len()
        invariant
            i <= bandwidth_configs.len(),
            bandwidth@.len() == i,
            forall|k: int| 0 <= k < i ==> window_config_valid(#[trigger] bandwidth_configs@[k]),
            forall|k: int|
                0 <= k < i ==> window_config_matches(#[trigger] bandwidth_configs@[k], bandwidth@[k]),
        decreases bandwidth_configs.len() - i,
    {
        let w = parse_window_config(&bandwidth_configs[i]);
        match w {
            Ok(w) => {
                bandwidth.push(w);
            },
            Err(e) => {
                return Err(e);
            },
        }
        i += 1;
    }
    let hours = TimeWindow::parse(active_hours)?;
    Ok(Schedule { active_hours: hours, bandwidth })
}

fn parse_folder_config(c: &ScheduleFolderConfig) -> (r: Result<FolderSchedule>)
    ensures
        r is Ok <==> folder_config_valid(*c),
        r is Ok ==> folder_config_matches(*c, r->Ok_0),
        r is Err ==> r->Err_0 is InvalidConfig,
{
    let (active_hours_override, active_hours) = match &c.active_hours {
        Some(s) => (true, TimeWindow::parse(s.as_str())?),
        None => (false, None),
    };
    let (max_upload_override, max_upload) = match &c.max_upload {
        Some(s) => (true, parse_rate(s.as_str())?),
        None => (false, None),
    };
    let (max_download_override, max_download) = match &c.max_download {
        Some(s) => (true, parse_rate(s.as_str())?),
        None => (false, None),
    };
    Ok(
        FolderSchedule {
            active_hours,
            active_hours_override,
            max_upload,
            max_upload_override,
            max_download,
            max_download_override,
        },
    )
}

fn folder_name_eq(name: &String, folder: &str) -> (b: bool)
    ensures
        b == (name@ == folder@),
{
    chars_eq(&chars_of(name.as_str()), &chars_of(folder))
}

impl ScheduleManager {
    /// Parse a schedule configuration.
    pub fn from_config(config: &ScheduleConfig) -> (r: Result<ScheduleManager>)
        ensures
            r is Ok <==> config_valid(*config),
            r is Ok ==> manager_matches(*config, r->Ok_0@),
            r is Err ==> r->Err_0 is InvalidConfig,
    {
        let global = parse_schedule(config.active_hours.as_str(), config.bandwidth.as_slice())?;
        let ghost names = config_folder_names(*config);
        let mut folders: Vec<(String, FolderSchedule)> = Vec::new();
        let mut j: usize = 0;
        while j < config.folders.len()
            invariant
                j <= config.folders.len(),
                folders@.len() == j,
                names == config_folder_names(*config),
                forall|k: int| 0 <= k < j ==> folder_config_valid(#[trigger] config.folders@[k].1),
                folder_names_unique(names.take(j as int)),
                forall|k: int|
                    0 <= k < j ==> (#[trigger] folders@[k]).0@ == config.folders@[k].0@
                        && folder_config_matches(config.folders@[k].1, folders@[k].1),
            decreases config.folders.len() - j,
        {
            let entry = &config.folders[j];
            let f = parse_folder_config(&entry.1);
            match f {
                Ok(f) => {
                    let mut k: usize = 0;
                    while k < j
                        invariant
                            k <= j < config.folders@.len(),
                            folders@.len() == j,
                            names == config_folder_names(*config),
                            entry == &config.folders@[j as int],
                            forall|q: int| 0 <= q < j ==> (#[trigger] folders@[q]).0@ == config.folders@[q].0@,
                            forall|q: int| 0 <= q < k ==> names[q] != names[j as int],
                        decreases j - k,
                    {
                        if folder_name_eq(&folders[k].0, entry.0.as_str()) {
                            proof {
                                assert(names[k as int] == names[j as int]);
                                assert(!folder_names_unique(names));
                            }
                            let m = concat_chars(&chars_of("duplicate folder schedule: "), &chars_of(entry.0.as_str()));
                            return Err(SyncwebError::InvalidConfig(string_of(&m)));
                        }
                        k += 1;
                    }
                    proof {
                        assert forall|a: int, b: int| 0 <= a < b < j + 1 implies #[trigger] names.take(j + 1)[a]
                            != #[trigger] names.take(j + 1)[b] by {
                            if b < j {
                                assert(names.take(j as int)[a] == names[a]);
                                assert(names.take(j as int)[b] == names[b]);
                            }
                        }
                    }
                    let name = entry.0.clone();
                    assert(name@ == entry.0@);
                    folders.push((name, f));
                },
                Err(e) => {
                    return Err(e);
                },
            }
            j += 1;
        }
        proof {
            assert(names.take(j as int) =~= names);
            assert(schedule_folder_names(folders@) =~= names);
            assert(folder_names_unique(names));
        }
        let m = ScheduleManager { global, folders };
        assert(manager_matches(*config, m@));
        Ok(m)
    }

    fn folder_schedule(&self, folder: Option<&str>) -> (r: Option<FolderSchedule>)
        ensures
            r == folder_entry(self@, opt_str(folder)),
    {
        let name = match folder {
            Some(n) => n,
            None => return None,
        };
        let ghost fs = self@.folders;
        assert(fs.subrange(0, fs.len() as int) =~= fs);
        let mut i: usize = 0;
        while i < self.folders.len()
            invariant
                i <= self.folders.len(),
                fs == self@.folders,
                fs.len() == self.folders@.len(),
                opt_str(folder) == Some(name@),
                find_folder(fs, name@) == find_folder(fs.subrange(i as int, fs.len() as int), name@),
            decreases self.folders.len() - i,
        {
            let ghost rest = fs.subrange(i as int, fs.len() as int);
            assert(rest.drop_first() =~= fs.subrange(i + 1, fs.len() as int));
            assert(rest[0] == fs[i as int]);
            assert(fs[i as int] == (self.folders@[i as int].0@, self.folders@[i as int].1));
            if folder_name_eq(&self.folders[i].0, name) {
                return Some(self.folders[i].1);
            }
            i += 1;
        }
        None
    }

    fn selected_window(&self, folder: Option<&str>) -> (r: Option<TimeWindow>)
        ensures
            opt_window(r) == selected_hours(self@, opt_str(folder)),
    {
        match self.folder_schedule(folder) {
            Some(fs) => if fs.active_hours_override {
                fs.active_hours
            } else {
                self.global.active_hours
            },
            None => self.global.active_hours,
        }
    }

    /// Whether a folder is active at the current minute of the day, read from
    /// the wall clock in UTC (the library cannot read the local time zone;
    /// `is_active_at` takes a local minute).
    pub fn is_active(&self, folder: Option<&str>) -> (b: bool)
        ensures
            exists|minute: u16| minute < 1440 && b == active_at(self@, opt_str(folder), minute),
    {
        let minute = current_minute();
        self.is_active_at(folder, minute)
    }

    /// Whether a folder is active at a minute after midnight.
    pub fn is_active_at(&self, folder: Option<&str>, minute: u16) -> (b: bool)
        ensures
            b == active_at(self@, opt_str(folder), minute),
    {
        match self.selected_window(folder) {
            None => true,
            Some(w) => w.contains(minute),
        }
    }

    /// The limits for a folder at the current minute of the day, read from
    /// the wall clock in UTC (`current_limits_at` takes a local minute).
    pub fn current_limits(&self, folder: Option<&str>) -> (l: BandwidthLimits)
        ensures
            exists|minute: u16| minute < 1440 && l == limits_at(self@, opt_str(folder), minute),
    {
        let minute = current_minute();
        self.current_limits_at(folder, minute)
    }

    /// The limits for a folder at a minute after midnight: those of the first
    /// global window containing it, with the folder's overrides applied.
    pub fn current_limits_at(&self, folder: Option<&str>, minute: u16) -> (l: BandwidthLimits)
        ensures
            l == limits_at(self@, opt_str(folder), minute),
    {
        let mut limits = self.base_limits(minute);
        if let Some(fs) = self.folder_schedule(folder) {
            if fs.max_upload_override {
                limits.max_upload = fs.max_upload;
            }
            if fs.max_download_override {
                limits.max_download = fs.max_download;
            }
        }
        limits
    }

    fn base_limits(&self, minute: u16) -> (l: BandwidthLimits)
        ensures
            l == first_limits(self@.bandwidth, minute),
    {
        let ghost ws = self@.bandwidth;
        assert(ws.subrange(0, ws.len() as int) =~= ws);
        let mut i: usize = 0;
        while i < self.global.bandwidth.len()
            invariant
                i <= self.global.bandwidth.len(),
                ws == self.global.bandwidth@,
                first_limits(ws, minute) == first_limits(ws.subrange(i as int, ws.len() as int), minute),
            decreases self.global.bandwidth.len() - i,
        {
            let ghost rest = ws.subrange(i as int, ws.len() as int);
            assert(rest.drop_first() =~= ws.subrange(i + 1, ws.len() as int));
            assert(rest[0] == ws[i as int]);
            let w = self.global.bandwidth[i];
            if w.hours.contains(minute) {
                return BandwidthLimits { max_upload: w.max_upload, max_download: w.max_download };
            }
            i += 1;
        }
        assert(ws.subrange(i as int, ws.len() as int).len() == 0);
        BandwidthLimits { max_upload: None, max_download: None }
    }

    /// The next minute, from `minute` on, at which the folder's schedule is
    /// active; `None` when no active hours apply or none is reached within
    /// a day.
    pub fn next_active_window_start_at(&self, folder: Option<&str>, minute: u16) -> (r: Option<u16>)
        ensures
            r == next_active_spec(self@, opt_str(folder), minute),
    {
        let window = match self.selected_window(folder) {
            Some(w) => w,
            None => return None,
        };
        if window.contains(minute) {
            return Some(minute);
        }
        let mut offset: u16 = 1;
        while offset <= 1440
            invariant
                1 <= offset <= 1441,
                selected_hours(self@, opt_str(folder)) == Some(window@),
                !window_contains(window@, minute),
                first_active_from(window@, minute, 1) == first_active_from(
                    window@,
                    minute,
                    offset as nat,
                ),
            decreases 1441 - offset,
        {
            let candidate = minute.saturating_add(offset) % 1440;
            assert(candidate == candidate_minute(minute, offset as nat));
            if window.contains(candidate) {
                return Some(candidate);
            }
            offset += 1;
        }
        None
    }

    /// The global schedule.
    pub fn global(&self) -> (s: &Schedule)
        ensures
            opt_window(s.active_hours) == self@.active_hours,
            s.bandwidth@ == self@.bandwidth,
    {
        &self.global
    }
}

proof fn lemma_first_active_contains(w: (u16, u16), minute: u16, k: nat)
    ensures
        first_active_from(w, minute, k) matches Some(c) ==> window_contains(w, c),
    decreases 1441 - k,
{
    if k <= 1440 && !window_contains(w, candidate_minute(minute, k)) {
        lemma_first_active_contains(w, minute, k + 1);
    }
}

proof fn lemma_first_active_reaches(w: (u16, u16), minute: u16, j: nat, k: nat)
    requires
        j <= k <= 1440,
        window_contains(w, candidate_minute(minute, k)),
    ensures
        first_active_from(w, minute, j) is Some,
    decreases k - j,
{
    if j < k && !window_contains(w, candidate_minute(minute, j)) {
        lemma_first_active_reaches(w, minute, j + 1, k);
    }
}

/// The next active minute is a minute at which the folder is active, and
/// when the folder has active hours and is active at `minute`, the next
/// active minute is `minute` itself.
pub proof fn law_next_active_is_active(m: ScheduleModel, folder: Option<Seq<char>>, minute: u16)
    ensures
        next_active_spec(m, folder, minute) matches Some(c) ==> active_at(m, folder, c),
        selected_hours(m, folder) is Some && active_at(m, folder, minute) ==> next_active_spec(
            m,
            folder,
            minute,
        ) == Some(minute),
{
    if let Some(w) = selected_hours(m, folder) {
        lemma_first_active_contains(w, minute, 1);
    }
}

/// Seen from any minute of the day, the next active minute is found
/// whenever the applicable window contains some minute of the day.
pub proof fn law_next_active_found_within_a_day(
    m: ScheduleModel,
    folder: Option<Seq<char>>,
    minute: u16,
    c: u16,
)
    requires
        minute < 1440,
        c < 1440,
        selected_hours(m, folder) matches Some(w) && window_contains(w, c),
    ensures
        next_active_spec(m, folder, minute) is Some,
{
    let w = selected_hours(m, folder)->0;
    if !window_contains(w, minute) {
        let k: nat = if c > minute {
            (c - minute) as nat
        } else {
            (c + 1440 - minute) as nat
        };
        assert(1 <= k <= 1440);
        assert(candidate_minute(minute, k) == c);
        lemma_first_active_reaches(w, minute, 1, k);
    }
}

/// The settings the configuration lists for a folder name.
pub open spec fn config_folder_in(fs: Seq<(String, ScheduleFolderConfig)>, name: Seq<char>) -> Option<
    ScheduleFolderConfig,
>
    decreases fs.len(),
{
    if fs.len() == 0 {
        None
    } else if fs[0].0@ == name {
        Some(fs[0].1)
    } else {
        config_folder_in(fs.drop_first(), name)
    }
}

/// The settings the configuration lists for `folder`, if any.
pub open spec fn config_folder(c: ScheduleConfig, folder: Option<Seq<char>>) -> Option<ScheduleFolderConfig> {
    match folder {
        Some(n) => config_folder_in(c.folders@, n),
        None => None,
    }
}

/// The active hours text that applies to `folder` in the configuration: the
/// folder's own when it sets them, else the global ones.
pub open spec fn config_hours_text(c: ScheduleConfig, folder: Option<Seq<char>>) -> Seq<char> {
    match config_folder(c, folder) {
        Some(fc) => match fc.active_hours {
            Some(h) => h@,
            None => c.active_hours@,
        },
        None => c.active_hours@,
    }
}

/// The limits of the first configured bandwidth window whose hours contain
/// `minute`, each rate as parsed.
pub open spec fn config_window_limits(ws: Seq<BandwidthWindowConfig>, minute: u16) -> BandwidthLimits
    decreases ws.len(),
{
    if ws.len() == 0 {
        BandwidthLimits { max_upload: None, max_download: None }
    } else if parse_window_spec(ws[0].hours@) matches Some(Some(w)) && window_contains(w, minute) {
        BandwidthLimits {
            max_upload: parse_rate_spec(ws[0].max_upload@)->0,
            max_download: parse_rate_spec(ws[0].max_download@)->0,
        }
    } else {
        config_window_limits(ws.drop_first(), minute)
    }
}

/// A rate override of the configuration, as parsed, or `base` without one.
pub open spec fn config_rate_or(o: Option<String>, base: Option<u64>) -> Option<u64> {
    match o {
        Some(r) => parse_rate_spec(r@)->0,
        None => base,
    }
}

proof fn lemma_folders_follow_config(
    fs: Seq<(String, ScheduleFolderConfig)>,
    ms: Seq<(Seq<char>, FolderSchedule)>,
    name: Seq<char>,
)
    requires
        ms.len() == fs.len(),
        forall|j: int|
            0 <= j < fs.len() ==> (#[trigger] ms[j]).0 == fs[j].0@ && folder_config_matches(fs[j].1, ms[j].1),
    ensures
        match config_folder_in(fs, name) {
            Some(fc) => find_folder(ms, name) matches Some(f) && folder_config_matches(fc, f),
            None => find_folder(ms, name) is None,
        },
    decreases fs.len(),
{
    if fs.len() > 0 {
        assert(ms[0].0 == fs[0].0@ && folder_config_matches(fs[0].1, ms[0].1));
        if fs[0].0@ != name {
            assert forall|j: int| 0 <= j < fs.drop_first().len() implies (#[trigger] ms.drop_first()[j]).0
                == fs.drop_first()[j].0@ && folder_config_matches(fs.drop_first()[j].1, ms.drop_first()[j].1) by {
                assert(ms.drop_first()[j] == ms[j + 1] && fs.drop_first()[j] == fs[j + 1]);
            }
            lemma_folders_follow_config(fs.drop_first(), ms.drop_first(), name);
        }
    }
}

proof fn lemma_windows_follow_config(ws: Seq<BandwidthWindowConfig>, bs: Seq<BandwidthWindow>, minute: u16)
    requires
        bs.len() == ws.len(),
        forall|i: int| 0 <= i < ws.len() ==> window_config_matches(#[trigger] ws[i], bs[i]),
    ensures
        first_limits(bs, minute) == config_window_limits(ws, minute),
    decreases ws.len(),
{
    if ws.len() > 0 {
        assert(window_config_matches(ws[0], bs[0]));
        assert forall|i: int| 0 <= i < ws.drop_first().len() implies window_config_matches(
            #[trigger] ws.drop_first()[i],
            bs.drop_first()[i],
        ) by {
            assert(ws.drop_first()[i] == ws[i + 1] && bs.drop_first()[i] == bs[i + 1]);
        }
        lemma_windows_follow_config(ws.drop_first(), bs.drop_first(), minute);
    }
}

/// A manager built from a configuration answers from it: a folder is active
/// at a minute when the hours that apply to it (its own when it sets them,
/// else the global ones) parse to no interval, which means all day, or to a
/// window containing the minute.
pub proof fn law_activity_follows_config(
    c: ScheduleConfig,
    m: ScheduleModel,
    folder: Option<Seq<char>>,
    minute: u16,
)
    requires
        manager_matches(c, m),
    ensures
        active_at(m, folder, minute) == match parse_window_spec(config_hours_text(c, folder)) {
            Some(Some(w)) => window_contains(w, minute),
            _ => true,
        },
{
    if let Some(n) = folder {
        lemma_folders_follow_config(c.folders@, m.folders, n);
    }
}

/// A manager built from a configuration takes each limit from the folder's
/// own rate when it sets one, else from the first configured bandwidth
/// window whose hours contain the minute, else no limit.
pub proof fn law_limits_follow_config(c: ScheduleConfig, m: ScheduleModel, folder: Option<Seq<char>>, minute: u16)
    requires
        manager_matches(c, m),
    ensures
        limits_at(m, folder, minute) == match config_folder(c, folder) {
            Some(fc) => BandwidthLimits {
                max_upload: config_rate_or(fc.max_upload, config_window_limits(c.bandwidth@, minute).max_upload),
                max_download: config_rate_or(
                    fc.max_download,
                    config_window_limits(c.bandwidth@, minute).max_download,
                ),
            },
            None => config_window_limits(c.bandwidth@, minute),
        },
{
    lemma_windows_follow_config(c.bandwidth@, m.bandwidth, minute);
    if let Some(n) = folder {
        lemma_folders_follow_config(c.folders@, m.folders, n);
    }
}

proof fn lemma_first_active_is_first(w: (u16, u16), minute: u16, k0: nat, c: u16)
    requires
        minute < 1440,
        1 <= k0,
        first_active_from(w, minute, k0) == Some(c),
    ensures
        exists|k: nat|
            k0 <= k <= 1440 && c == candidate_minute(minute, k) && window_contains(w, c) && forall|j: nat|
                k0 <= j < k ==> !window_contains(w, #[trigger] candidate_minute(minute, j)),
    decreases 1441 - k0,
{
    if window_contains(w, candidate_minute(minute, k0)) {
        assert(k0 <= 1440);
    } else {
        lemma_first_active_is_first(w, minute, k0 + 1, c);
        let k = choose|k: nat|
            k0 + 1 <= k <= 1440 && c == candidate_minute(minute, k) && window_contains(w, c) && forall|j: nat|
                k0 + 1 <= j < k ==> !window_contains(w, #[trigger] candidate_minute(minute, j));
        assert forall|j: nat| k0 <= j < k implies !window_contains(w, #[trigger] candidate_minute(minute, j)) by {
            if j > k0 {
                assert(k0 + 1 <= j < k);
            }
        }
    }
}

/// The minute of the day `k` minutes after `minute`, wrapping past midnight.
pub open spec fn day_minute(minute: u16, k: int) -> u16 {
    ((minute + k) % 1440) as u16
}

/// From a minute of the day, the next active minute is the first of the
/// minutes `minute`, `minute + 1`, ... (wrapping past midnight, within a day)
/// at which the folder is active.
pub proof fn law_next_active_is_first(m: ScheduleModel, folder: Option<Seq<char>>, minute: u16, c: u16)
    requires
        minute < 1440,
        next_active_spec(m, folder, minute) == Some(c),
    ensures
        exists|k: int|
            0 <= k < 1440 && c == #[trigger] day_minute(minute, k) && active_at(m, folder, c) && forall|j: int|
                0 <= j < k ==> !active_at(m, folder, #[trigger] day_minute(minute, j)),
{
    let w = selected_hours(m, folder)->0;
    if window_contains(w, minute) {
        assert(c == day_minute(minute, 0));
    } else {
        lemma_first_active_is_first(w, minute, 1, c);
        let k = choose|k: nat|
            1 <= k <= 1440 && c == candidate_minute(minute, k) && window_contains(w, c) && forall|j: nat|
                1 <= j < k ==> !window_contains(w, #[trigger] candidate_minute(minute, j));
        assert(candidate_minute(minute, k) == day_minute(minute, k as int));
        if k == 1440 {
            assert((minute + 1440) % 1440 == minute);
        }
        assert forall|j: int| 0 <= j < k implies !active_at(m, folder, #[trigger] day_minute(minute, j)) by {
            if j == 0 {
                assert(day_minute(minute, 0) == minute);
            } else {
                assert(candidate_minute(minute, j as nat) == day_minute(minute, j));
            }
        }
        assert(c == day_minute(minute, k as int));
    }
}

/// The minute after midnight (UTC) at `seconds` after the epoch; times
/// before the epoch read as midnight.
pub open spec fn minute_of_day_spec(seconds: i64) -> u16 {
    if seconds < 0 {
        0
    } else {
        ((seconds % 86400) / 60) as u16
    }
}

/// The minute after midnight (UTC) at `seconds` after the epoch.
pub fn minute_of_day(seconds: i64) -> (m: u16)
    ensures
        m == minute_of_day_spec(seconds),
        m < 1440,
{
    let secs: u64 = if seconds < 0 {
        0
    } else {
        seconds as u64
    };
    let day_seconds = secs % 86400;
    (day_seconds / 60) as u16
}

/// The current minute after midnight (UTC) on the wall clock. The clock
/// reading is not known, so only the range is stated; `minute_of_day`
/// states the minute of a given reading.
pub fn current_minute() -> (m: u16)
    ensures
        m < 1440,
        exists|s: i64| m == minute_of_day_spec(s),
{
    let seconds = crate::clock::now_seconds();
    minute_of_day(seconds)
}

} // verus!
