//! System-audio capture through the PulseAudio tools (`pactl`, `parecord`):
//! which sources to record from, how the microphone-plus-system mix is
//! wired, and the command lines of the recorder and of the ffmpeg import.
//!
//! Two capture sources:
//!  - `SystemOnly`: the default sink's `.monitor` (what plays out of the
//!    speakers, i.e. the other meeting participants).
//!  - `MicAndSystem`: the microphone and the sink monitor, each looped back
//!    into a null sink whose monitor is recorded, so the user's own voice is
//!    in the recording too.

use vstd::prelude::*;
use crate::chars::{
    chars_of, string_of, append_str, append_chars, trim, trim_of, words, runs_of, lines, lines_of,
    lemma_chars_deep_view, dec, dec_of, CharClass,
};
use crate::config::owned;

verus! {

/// What to capture.
#[derive(Debug, Clone, Copy, PartialEq, Eq, Structural)]
pub enum Source {
    /// Only system playback (other participants); excludes the local mic.
    SystemOnly,
    /// System playback mixed with the local microphone (full meeting).
    MicAndSystem,
}

/// Why no capture device was found.
#[derive(Debug, Clone, Copy, PartialEq, Eq, Structural)]
pub enum CaptureError {
    /// Neither a default sink nor any `.monitor` source.
    NoMonitorSource,
    /// No default microphone source.
    NoMicrophone,
}

impl CaptureError {
    pub open spec fn spec_message(&self) -> Seq<char> {
        match self {
            CaptureError::NoMonitorSource => "Sistem sesi (monitor source) bulunamadı. Çıkış cihazını kontrol et."@,
            CaptureError::NoMicrophone => "Varsayılan mikrofon bulunamadı. Giriş cihazını kontrol et."@,
        }
    }

    /// The message shown to the user.
    pub fn message(&self) -> (r: String)
        ensures
            r@ == self.spec_message(),
    {
        match self {
            CaptureError::NoMonitorSource => owned("Sistem sesi (monitor source) bulunamadı. Çıkış cihazını kontrol et."),
            CaptureError::NoMicrophone => owned("Varsayılan mikrofon bulunamadı. Giriş cihazını kontrol et."),
        }
    }
}

/// `s` ends with `p`.
pub open spec fn ends_with(s: Seq<char>, p: Seq<char>) -> bool {
    p.len() <= s.len() && s.subrange(s.len() - p.len(), s.len() as int) == p
}

pub fn ends_with_chars(s: &Vec<char>, p: &Vec<char>) -> (r: bool)
    ensures
        r == ends_with(s@, p@),
{
    if p.len() > s.len() {
        return false;
    }
    let off = s.len() - p.len();
    let mut i: usize = 0;
    while i < p.len()
        invariant
            off + p.len() == s.len(),
            i <= p.len(),
            forall|k: int| 0 <= k < i ==> s@[off + k] == p@[k],
        decreases p.len() - i,
    {
        if s[off + i] != p[i] {
            assert(s@.subrange(off as int, s.len() as int)[i as int] != p@[i as int]);
            return false;
        }
        i = i + 1;
    }
    assert(s@.subrange(off as int, s.len() as int) =~= p@);
    true
}

/// The text a `pactl get-default-*` call printed, trimmed, when it succeeded
/// and printed something.
pub open spec fn default_name(out: Option<String>) -> Option<Seq<char>> {
    match out {
        Some(o) => if trim(o@).len() > 0 { Some(trim(o@)) } else { None },
        None => None,
    }
}

fn default_name_of(out: &Option<String>) -> (r: Option<Vec<char>>)
    ensures
        match default_name(*out) {
            Some(n) => r matches Some(v) && v@ == n,
            None => r is None,
        },
{
    match out {
        Some(o) => {
            let t = trim_of(o);
            if t.len() > 0 { Some(t) } else { None }
        },
        None => None,
    }
}

/// The monitor of the default sink, from the output of
/// `pactl get-default-sink` (none when that failed or printed nothing).
pub open spec fn spec_monitor_of_sink(default_sink: Option<String>) -> Option<Seq<char>> {
    match default_name(default_sink) {
        Some(n) => Some(n + ".monitor"@),
        None => None,
    }
}

pub fn monitor_of_sink(default_sink: &Option<String>) -> (r: Option<String>)
    ensures
        match spec_monitor_of_sink(*default_sink) {
            Some(m) => r matches Some(s) && s@ == m,
            None => r is None,
        },
{
    match default_name_of(default_sink) {
        Some(n) => {
            let mut v = n;
            append_str(&mut v, ".monitor");
            Some(string_of(&v))
        },
        None => None,
    }
}

/// A line of `pactl list short sources` whose name (second column) is a
/// monitor source.
pub open spec fn is_monitor_line(l: Seq<char>) -> bool {
    words(l).len() > 1 && ends_with(words(l)[1], ".monitor"@)
}

/// The name on the first monitor line of `ls`.
pub open spec fn first_monitor(ls: Seq<Seq<char>>) -> Option<Seq<char>>
    decreases ls.len(),
{
    if ls.len() == 0 {
        None
    } else if is_monitor_line(ls[0]) {
        Some(words(ls[0])[1])
    } else {
        first_monitor(ls.drop_first())
    }
}

/// The first monitor source in a `pactl list short sources` listing.
pub fn first_monitor_source(listing: &str) -> (r: Option<String>)
    ensures
        match first_monitor(lines(listing@)) {
            Some(m) => r matches Some(s) && s@ == m,
            None => r is None,
        },
{
    let cs = chars_of(listing);
    let ls = lines_of(&cs);
    let suffix = chars_of(".monitor");
    let ghost all = ls.deep_view();
    assert(all.subrange(0, all.len() as int) =~= all);
    let mut i: usize = 0;
    while i < ls.len()
        invariant
            i <= ls.len(),
            all == ls.deep_view(),
            all == lines(listing@),
            suffix@ == ".monitor"@,
            first_monitor(all) == first_monitor(all.subrange(i as int, all.len() as int)),
        decreases ls.len() - i,
    {
        let ghost rest = all.subrange(i as int, all.len() as int);
        assert(rest[0] == all[i as int]);
        assert(rest.drop_first() =~= all.subrange(i + 1, all.len() as int));
        proof { lemma_chars_deep_view(&ls[i as int]); }
        let ws = runs_of(&ls[i], CharClass::Whitespace);
        if ws.len() > 1 {
            proof { lemma_chars_deep_view(&ws[1]); }
            if ends_with_chars(&ws[1], &suffix) {
                return Some(string_of(&ws[1]));
            }
        }
        i = i + 1;
    }
    None
}

/// The monitor source to record system audio from: the default sink's
/// monitor, else the first monitor source listed.
pub open spec fn spec_default_monitor(default_sink: Option<String>, listing: Seq<char>) -> Option<Seq<char>> {
    match spec_monitor_of_sink(default_sink) {
        Some(m) => Some(m),
        None => first_monitor(lines(listing)),
    }
}

pub fn default_monitor_source(default_sink: &Option<String>, listing: &str) -> (r: Result<String, CaptureError>)
    ensures
        match spec_default_monitor(*default_sink, listing@) {
            Some(m) => r matches Ok(s) && s@ == m,
            None => r == Err::<String, CaptureError>(CaptureError::NoMonitorSource),
        },
{
    match monitor_of_sink(default_sink) {
        Some(m) => Ok(m),
        None => match first_monitor_source(listing) {
            Some(m) => Ok(m),
            None => Err(CaptureError::NoMonitorSource),
        },
    }
}

/// The default microphone, from the output of `pactl get-default-source`.
pub fn default_mic_source(default_source: &Option<String>) -> (r: Result<String, CaptureError>)
    ensures
        match default_name(*default_source) {
            Some(n) => r matches Ok(s) && s@ == n,
            None => r == Err::<String, CaptureError>(CaptureError::NoMicrophone),
        },
{
    match default_name_of(default_source) {
        Some(n) => Ok(string_of(&n)),
        None => Err(CaptureError::NoMicrophone),
    }
}

/// The source a recording uses: system only when asked, else microphone and
/// system.
pub fn source_for(system_only: bool) -> (r: Source)
    ensures
        r == (if system_only { Source::SystemOnly } else { Source::MicAndSystem }),
{
    if system_only { Source::SystemOnly } else { Source::MicAndSystem }
}

/// How the microphone-plus-system mix is wired: the null sink's name, the
/// `pactl load-module` arguments in load order (null sink, microphone
/// loopback, system loopback), and the device to record.
#[derive(Debug, Clone)]
pub struct MixPlan {
    pub sink_name: String,
    pub modules: Vec<Vec<String>>,
    pub record_device: String,
}

/// The views of a list of strings.
pub open spec fn views(v: Seq<String>) -> Seq<Seq<char>> {
    v.map_values(|s: String| s@)
}

pub open spec fn spec_mix_sink_name(pid: u32) -> Seq<char> {
    "tutanak_mix_"@ + dec(pid as nat)
}

pub open spec fn null_sink_args(sink: Seq<char>) -> Seq<Seq<char>> {
    seq!["module-null-sink"@, "sink_name="@ + sink, "sink_properties=device.description=tutanak-mix"@]
}

pub open spec fn loopback_args(source: Seq<char>, sink: Seq<char>) -> Seq<Seq<char>> {
    seq!["module-loopback"@, "source="@ + source, "sink="@ + sink, "latency_msec=30"@]
}

/// The plan is the mix for `mic` and `monitor` in the process `pid`.
pub open spec fn is_mix_plan(p: MixPlan, mic: Seq<char>, monitor: Seq<char>, pid: u32) -> bool {
    let sink = spec_mix_sink_name(pid);
    &&& p.sink_name@ == sink
    &&& p.modules@.len() == 3
    &&& views(p.modules@[0]@) == null_sink_args(sink)
    &&& views(p.modules@[1]@) == loopback_args(mic, sink)
    &&& views(p.modules@[2]@) == loopback_args(monitor, sink)
    &&& p.record_device@ == sink + ".monitor"@
}

fn concat_owned(a: &str, b: &Vec<char>) -> (r: String)
    ensures
        r@ == a@ + b@,
{
    let mut v: Vec<char> = Vec::new();
    append_str(&mut v, a);
    append_chars(&mut v, b);
    string_of(&v)
}

fn loopback_of(source: &str, sink: &Vec<char>) -> (r: Vec<String>)
    ensures
        views(r@) == loopback_args(source@, sink@),
{
    let s = chars_of(source);
    let mut r: Vec<String> = Vec::new();
    r.push(owned("module-loopback"));
    r.push(concat_owned("source=", &s));
    r.push(concat_owned("sink=", sink));
    r.push(owned("latency_msec=30"));
    assert(views(r@) =~= loopback_args(source@, sink@));
    r
}

/// The wiring of the microphone-plus-system mix for process `pid`.
pub fn mix_plan(mic: &str, monitor: &str, pid: u32) -> (r: MixPlan)
    ensures
        is_mix_plan(r, mic@, monitor@, pid),
{
    let mut sink: Vec<char> = Vec::new();
    append_str(&mut sink, "tutanak_mix_");
    let d = dec_of(pid as u64);
    append_chars(&mut sink, &d);
    assert(sink@ =~= spec_mix_sink_name(pid));

    let mut null_sink: Vec<String> = Vec::new();
    null_sink.push(owned("module-null-sink"));
    null_sink.push(concat_owned("sink_name=", &sink));
    null_sink.push(owned("sink_properties=device.description=tutanak-mix"));
    assert(views(null_sink@) =~= null_sink_args(sink@));

    let mic_loop = loopback_of(mic, &sink);
    let sys_loop = loopback_of(monitor, &sink);
    let mut modules: Vec<Vec<String>> = Vec::new();
    modules.push(null_sink);
    modules.push(mic_loop);
    modules.push(sys_loop);

    let mut dev = sink.clone();
    append_str(&mut dev, ".monitor");
    MixPlan { sink_name: string_of(&sink), modules, record_device: string_of(&dev) }
}

/// The order in which loaded modules are unloaded: the reverse of loading.
pub fn unload_order(ids: &Vec<String>) -> (r: Vec<String>)
    ensures
        views(r@) == views(ids@).reverse(),
{
    let mut r: Vec<String> = Vec::new();
    let mut i: usize = ids.len();
    while i > 0
        invariant
            i <= ids.len(),
            r@.len() == ids.len() - i,
            forall|k: int| 0 <= k < r@.len() ==> #[trigger] r@[k]@ == ids@[ids.len() - 1 - k]@,
        decreases i,
    {
        i = i - 1;
        let s = ids[i].clone();
        r.push(s);
    }
    assert(views(r@) =~= views(ids@).reverse());
    r
}

/// The `parecord` arguments that record `device` to `out` as 16 kHz mono
/// 16-bit WAV.
pub open spec fn spec_parecord_args(device: Seq<char>, out: Seq<char>) -> Seq<Seq<char>> {
    seq!["--device="@ + device, "--format=s16le"@, "--rate=16000"@, "--channels=1"@, "--file-format=wav"@, out]
}

pub fn parecord_args(device: &str, out: &str) -> (r: Vec<String>)
    ensures
        views(r@) == spec_parecord_args(device@, out@),
{
    let d = chars_of(device);
    let mut r: Vec<String> = Vec::new();
    r.push(concat_owned("--device=", &d));
    r.push(owned("--format=s16le"));
    r.push(owned("--rate=16000"));
    r.push(owned("--channels=1"));
    r.push(owned("--file-format=wav"));
    r.push(owned(out));
    assert(views(r@) =~= spec_parecord_args(device@, out@));
    r
}

/// The `ffmpeg` arguments that turn `input` into 16 kHz mono WAV at `out`,
/// overwriting it.
pub open spec fn spec_ffmpeg_args(input: Seq<char>, out: Seq<char>) -> Seq<Seq<char>> {
    seq!["-y"@, "-i"@, input, "-ar"@, "16000"@, "-ac"@, "1"@, "-f"@, "wav"@, out]
}

pub fn ffmpeg_args(input: &str, out: &str) -> (r: Vec<String>)
    ensures
        views(r@) == spec_ffmpeg_args(input@, out@),
{
    let mut r: Vec<String> = Vec::new();
    r.push(owned("-y"));
    r.push(owned("-i"));
    r.push(owned(input));
    r.push(owned("-ar"));
    r.push(owned("16000"));
    r.push(owned("-ac"));
    r.push(owned("1"));
    r.push(owned("-f"));
    r.push(owned("wav"));
    r.push(owned(out));
    assert(views(r@) =~= spec_ffmpeg_args(input@, out@));
    r
}

} // verus!
