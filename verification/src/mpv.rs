//! The player process: how it is started, the lines exchanged with it, what
//! its events mean, and when it is started anew.
//!
//! The exchange is one JSON value per line. A request carries a number and
//! its answer repeats it; an event carries none, and is told by that.

use vstd::prelude::*;

use crate::json::{json_parse, json_text, one_line, parse, quote_json, Json, JsonView};
use crate::model::{StreamSource, StreamSourceView};
use crate::text::{
    concat2, concat3, decimal, decimal_text, join, joined, lemma_parts_are_glued_in_order, opt_text,
    texts,
};
use crate::time::{Duration, SystemTime, NANOS_PER_SEC, SPAN_LIMIT};

verus! {

/// The process is started no more often than this.
pub const RESTART_COOLDOWN_NANOS: u128 = 2_000_000_000;

/// After so many failed starts in a row no more are tried.
pub const MAX_CONSECUTIVE_RESTARTS: u32 = 5;

/// What the player tells, freed of the details of the exchange.
#[derive(Clone, Copy, Debug, PartialEq, Eq, Structural)]
pub enum MpvEvent {
    Position { position: Duration },
    Duration(Duration),
    Paused(bool),
    EndOfFile,
    /// The playlist is over, or the file did not load.
    Idle,
    /// The process had died and was started anew. This must show: sound
    /// that goes silently looks like a broken player.
    Restarted,
    /// No more starts are tried.
    GaveUp { attempts: u32 },
}

/// What can fail between the daemon and the player.
#[derive(Debug, PartialEq, Eq)]
pub enum MpvError {
    Ipc(String),
    SpawnTimeout(Duration),
    Closed,
    Command(String),
}

/// The name under which the written form of a span is known: of its whole
/// seconds and the nanoseconds beyond them.
pub uninterp spec fn span_text(secs: u64, nanos: u32) -> Seq<char>;

/// `std::time::Duration` as `{:?}` of `format!` writes it: the same span is
/// always written alike.
#[verifier::external_body]
fn write_span(secs: u64, nanos: u32) -> (r: String)
    requires
        nanos < 1_000_000_000,
    ensures
        r@ == span_text(secs, nanos),
{
    format!("{:?}", std::time::Duration::new(secs, nanos))
}

/// The error as it is shown to people.
pub open spec fn mpv_message(e: MpvError) -> Seq<char> {
    match e {
        MpvError::Ipc(reason) => "mpv IPC: "@ + reason@,
        MpvError::SpawnTimeout(limit) => "сокет mpv не появился за "@ + span_text(
            (limit@ / (NANOS_PER_SEC as nat)) as u64,
            (limit@ % (NANOS_PER_SEC as nat)) as u32,
        ),
        MpvError::Closed => "соединение с mpv закрыто"@,
        MpvError::Command(reason) => "mpv ответил ошибкой: "@ + reason@,
    }
}

impl MpvError {
    /// The error as it is shown to people.
    pub fn to_string(&self) -> (r: String)
        ensures
            r@ == mpv_message(*self),
    {
        match self {
            MpvError::Ipc(reason) => concat2("mpv IPC: ", reason.as_str()),
            MpvError::SpawnTimeout(limit) => {
                let nanos: u128 = limit.as_nanos() % NANOS_PER_SEC;
                let span = write_span(limit.as_secs(), nanos as u32);
                concat2("сокет mpv не появился за ", span.as_str())
            },
            MpvError::Closed => "соединение с mpv закрыто".to_owned(),
            MpvError::Command(reason) => concat2("mpv ответил ошибкой: ", reason.as_str()),
        }
    }
}

/// The arguments that the player is started with. `volume` is the number as
/// it is written.
pub open spec fn mpv_arg_texts(socket: Seq<char>, volume: Seq<char>) -> Seq<Seq<char>> {
    seq![
        "--idle=yes"@,
        "--no-video"@,
        "--no-ytdl"@,
        "--no-terminal"@,
        "--input-ipc-server="@ + socket,
        "--volume="@ + volume,
    ]
}

/// The arguments that the player is started with. It stays when there is
/// nothing to play, and leaves the resolving of links to the daemon.
pub fn mpv_args(socket: &str, volume: &str) -> (r: Vec<String>)
    ensures
        texts(r@) == mpv_arg_texts(socket@, volume@),
{
    let mut out: Vec<String> = Vec::new();
    out.push("--idle=yes".to_owned());
    out.push("--no-video".to_owned());
    out.push("--no-ytdl".to_owned());
    out.push("--no-terminal".to_owned());
    out.push(concat2("--input-ipc-server=", socket));
    out.push(concat2("--volume=", volume));
    assert(texts(out@) =~= mpv_arg_texts(socket@, volume@));
    out
}

/// The headers that are set before a source is loaded.
pub open spec fn headers_for(source: StreamSourceView) -> Option<Seq<Seq<char>>> {
    match source {
        StreamSourceView::Remote { user_agent: Some(ua), .. } => Some(
            seq!["User-Agent: "@ + ua],
        ),
        _ => None,
    }
}

/// The headers that are set before a source is loaded: the user agent of a
/// remote one and nothing else, for the player splits the option at commas.
pub fn header_option(source: &StreamSource) -> (r: Option<Vec<String>>)
    ensures
        match r {
            Some(v) => headers_for(source@) == Some(texts(v@)),
            None => headers_for(source@) is None,
        },
{
    match source {
        StreamSource::Local(_) => None,
        StreamSource::Remote { user_agent, .. } => match user_agent {
            Some(ua) => {
                let mut out: Vec<String> = Vec::new();
                out.push(concat2("User-Agent: ", ua.as_str()));
                assert(texts(out@) =~= seq!["User-Agent: "@ + ua@]);
                Some(out)
            },
            None => None,
        },
    }
}

/// An argument of a command.
#[derive(Debug, PartialEq, Eq)]
pub enum Arg {
    Text(String),
    Unsigned(u64),
    Flag(bool),
    Texts(Vec<String>),
    /// A number as it is written.
    Literal(String),
}

pub open spec fn quoted_texts(v: Seq<Seq<char>>) -> Seq<Seq<char>> {
    v.map_values(|s: Seq<char>| json_text(s))
}

/// An argument as it is written in a request.
pub open spec fn arg_text(arg: Arg) -> Seq<char> {
    match arg {
        Arg::Text(s) => json_text(s@),
        Arg::Unsigned(n) => decimal_text(n as nat),
        Arg::Flag(b) => if b {
            "true"@
        } else {
            "false"@
        },
        Arg::Texts(v) => "["@ + joined(quoted_texts(texts(v@)), ","@) + "]"@,
        Arg::Literal(s) => s@,
    }
}

pub open spec fn arg_texts(args: Seq<Arg>) -> Seq<Seq<char>> {
    args.map_values(|a: Arg| arg_text(a))
}

/// A request.
pub open spec fn request_text(args: Seq<Arg>, id: u64) -> Seq<char> {
    "{\"command\":["@ + joined(arg_texts(args), ","@) + "],\"request_id\":"@ + decimal_text(
        id as nat,
    ) + "}"@
}

/// An argument without line feeds of its own.
pub open spec fn plain_arg(arg: Arg) -> bool {
    arg matches Arg::Literal(s) ==> one_line(s@)
}

pub open spec fn all_one_line(parts: Seq<Seq<char>>) -> bool {
    forall|i: int| 0 <= i < parts.len() ==> one_line(#[trigger] parts[i])
}

proof fn lemma_concat_one_line(a: Seq<char>, b: Seq<char>)
    requires
        one_line(a),
        one_line(b),
    ensures
        one_line(a + b),
{
    let s = a + b;
    assert forall|i: int| 0 <= i < s.len() implies #[trigger] s[i] != '\n' by {
        if i < a.len() {
            assert(s[i] == a[i]);
        } else {
            assert(s[i] == b[i - a.len()]);
        }
    }
}

proof fn lemma_joined_one_line(parts: Seq<Seq<char>>, sep: Seq<char>)
    requires
        all_one_line(parts),
        one_line(sep),
    ensures
        one_line(joined(parts, sep)),
    decreases parts.len(),
{
    if parts.len() > 1 {
        assert forall|i: int| 0 <= i < parts.drop_last().len() implies one_line(
            #[trigger] parts.drop_last()[i],
        ) by {
            assert(one_line(parts[i]));
        }
        lemma_joined_one_line(parts.drop_last(), sep);
        lemma_concat_one_line(joined(parts.drop_last(), sep), sep);
        lemma_concat_one_line(joined(parts.drop_last(), sep) + sep, parts.last());
    }
}

proof fn lemma_decimal_one_line(n: nat)
    ensures
        one_line(decimal_text(n)),
    decreases n,
{
    if n >= 10 {
        lemma_decimal_one_line(n / 10);
        let before = decimal_text(n / 10);
        let s = decimal_text(n);
        assert forall|i: int| 0 <= i < s.len() implies #[trigger] s[i] != '\n' by {
            if i < before.len() {
                assert(s[i] == before[i]);
            }
        }
    }
}

proof fn lemma_fixed_parts_one_line()
    ensures
        one_line("true"@),
        one_line("false"@),
        one_line(","@),
        one_line("["@),
        one_line("]"@),
        one_line("{\"command\":["@),
        one_line("],\"request_id\":"@),
        one_line("}"@),
{
    reveal_strlit("true");
    reveal_strlit("false");
    reveal_strlit(",");
    reveal_strlit("[");
    reveal_strlit("]");
    reveal_strlit("{\"command\":[");
    reveal_strlit("],\"request_id\":");
    reveal_strlit("}");
}

fn write_arg(arg: &Arg) -> (r: String)
    ensures
        r@ == arg_text(*arg),
        plain_arg(*arg) ==> one_line(r@),
{
    proof {
        lemma_fixed_parts_one_line();
    }
    match arg {
        Arg::Text(s) => quote_json(s.as_str()),
        Arg::Unsigned(n) => {
            proof {
                lemma_decimal_one_line(*n as nat);
            }
            decimal(*n)
        },
        Arg::Flag(b) => if *b {
            "true".to_owned()
        } else {
            "false".to_owned()
        },
        Arg::Texts(v) => {
            let ghost all = quoted_texts(texts(v@));
            let mut parts: Vec<String> = Vec::new();
            let mut i: usize = 0;
            while i < v.len()
                invariant
                    i <= v@.len(),
                    all == quoted_texts(texts(v@)),
                    texts(parts@) == all.subrange(0, i as int),
                    all_one_line(texts(parts@)),
                decreases v@.len() - i,
            {
                let ghost had = texts(parts@);
                parts.push(quote_json(v[i].as_str()));
                assert(texts(parts@) =~= had.push(all[i as int]));
                i += 1;
                assert(texts(parts@) =~= all.subrange(0, i as int));
            }
            assert(all.subrange(0, i as int) =~= all);
            proof {
                lemma_joined_one_line(all, ","@);
                lemma_concat_one_line("["@, joined(all, ","@));
                lemma_concat_one_line("["@ + joined(all, ","@), "]"@);
            }
            concat3("[", join(&parts, ",").as_str(), "]")
        },
        Arg::Literal(s) => s.clone(),
    }
}

/// Writes a request with this number. It is one line: the line feed comes
/// after it.
pub fn request_line(args: &Vec<Arg>, id: u64) -> (r: String)
    ensures
        r@ == request_text(args@, id),
        (forall|i: int| 0 <= i < args@.len() ==> plain_arg(#[trigger] args@[i])) ==> one_line(r@),
{
    let ghost all = arg_texts(args@);
    let mut parts: Vec<String> = Vec::new();
    let mut i: usize = 0;
    while i < args.len()
        invariant
            i <= args@.len(),
            all == arg_texts(args@),
            texts(parts@) == all.subrange(0, i as int),
            (forall|k: int| 0 <= k < args@.len() ==> plain_arg(#[trigger] args@[k]))
                ==> all_one_line(texts(parts@)),
        decreases args@.len() - i,
    {
        let ghost had = texts(parts@);
        parts.push(write_arg(&args[i]));
        assert(texts(parts@) =~= had.push(all[i as int]));
        i += 1;
        assert(texts(parts@) =~= all.subrange(0, i as int));
    }
    assert(all.subrange(0, i as int) =~= all);
    proof {
        lemma_fixed_parts_one_line();
        lemma_decimal_one_line(id as nat);
        if forall|k: int| 0 <= k < args@.len() ==> plain_arg(#[trigger] args@[k]) {
            let a = "{\"command\":["@;
            let b = joined(all, ","@);
            let c = "],\"request_id\":"@;
            let d = decimal_text(id as nat);
            lemma_joined_one_line(all, ","@);
            lemma_concat_one_line(a, b);
            lemma_concat_one_line(a + b, c);
            lemma_concat_one_line(a + b + c, d);
            lemma_concat_one_line(a + b + c + d, "}"@);
        }
    }
    let head = concat3("{\"command\":[", join(&parts, ",").as_str(), "],\"request_id\":");
    concat3(head.as_str(), decimal(id).as_str(), "}")
}

/// The requests that subscribe to the properties that events come from.
pub fn observe_commands() -> (r: Vec<Vec<Arg>>)
    ensures
        r@.len() == 3,
        is_observe(r@[0]@, 1, "time-pos"@),
        is_observe(r@[1]@, 2, "duration"@),
        is_observe(r@[2]@, 3, "pause"@),
{
    let mut out: Vec<Vec<Arg>> = Vec::new();
    out.push(observe_command(1, "time-pos"));
    out.push(observe_command(2, "duration"));
    out.push(observe_command(3, "pause"));
    out
}

pub open spec fn is_observe(args: Seq<Arg>, id: u64, name: Seq<char>) -> bool {
    &&& args.len() == 3
    &&& args[0] matches Arg::Text(s) && s@ == "observe_property"@
    &&& args[1] == Arg::Unsigned(id)
    &&& args[2] matches Arg::Text(s) && s@ == name
}

fn observe_command(id: u64, name: &str) -> (r: Vec<Arg>)
    ensures
        is_observe(r@, id, name@),
{
    let mut out: Vec<Arg> = Vec::new();
    out.push(Arg::Text("observe_property".to_owned()));
    out.push(Arg::Unsigned(id));
    out.push(Arg::Text(name.to_owned()));
    out
}

/// Whether a command sets a property to a value.
pub open spec fn is_set(args: Seq<Arg>, name: Seq<char>, value: Seq<char>) -> bool {
    &&& args.len() == 3
    &&& args[0] matches Arg::Text(s) && s@ == "set_property"@
    &&& args[1] matches Arg::Text(s) && s@ == name
    &&& arg_text(args[2]) == value
}

/// The command that sets a property.
pub fn set_property(name: &str, value: Arg) -> (r: Vec<Arg>)
    ensures
        is_set(r@, name@, arg_text(value)),
{
    let mut out: Vec<Arg> = Vec::new();
    out.push(Arg::Text("set_property".to_owned()));
    out.push(Arg::Text(name.to_owned()));
    out.push(value);
    out
}

/// The command that pauses or goes on.
pub fn pause_command(paused: bool) -> (r: Vec<Arg>)
    ensures
        is_set(
            r@,
            "pause"@,
            if paused {
                "true"@
            } else {
                "false"@
            },
        ),
{
    set_property("pause", Arg::Flag(paused))
}

/// What a source is loaded by: its path or its link.
pub open spec fn target_of(source: StreamSourceView) -> Seq<char> {
    match source {
        StreamSourceView::Local(path) => path,
        StreamSourceView::Remote { url, .. } => url,
    }
}

pub open spec fn is_loadfile(args: Seq<Arg>, target: Seq<char>) -> bool {
    &&& args.len() == 3
    &&& args[0] matches Arg::Text(s) && s@ == "loadfile"@
    &&& args[1] matches Arg::Text(s) && s@ == target
    &&& args[2] matches Arg::Text(s) && s@ == "replace"@
}

pub open spec fn header_value(headers: Seq<Seq<char>>) -> Seq<char> {
    "["@ + joined(quoted_texts(headers), ","@) + "]"@
}

/// The commands that load a source: its headers first, where it has any.
pub fn load_commands(source: &StreamSource) -> (r: Vec<Vec<Arg>>)
    ensures
        match headers_for(source@) {
            Some(headers) => {
                &&& r@.len() == 2
                &&& is_set(r@[0]@, "http-header-fields"@, header_value(headers))
                &&& is_loadfile(r@[1]@, target_of(source@))
            },
            None => r@.len() == 1 && is_loadfile(r@[0]@, target_of(source@)),
        },
{
    let mut out: Vec<Vec<Arg>> = Vec::new();
    if let Some(headers) = header_option(source) {
        out.push(set_property("http-header-fields", Arg::Texts(headers)));
    }
    let target: String = match source {
        StreamSource::Local(path) => path.clone(),
        StreamSource::Remote { url, .. } => url.clone(),
    };
    let mut load: Vec<Arg> = Vec::new();
    load.push(Arg::Text("loadfile".to_owned()));
    load.push(Arg::Text(target));
    load.push(Arg::Text("replace".to_owned()));
    out.push(load);
    out
}

/// A line from the player.
#[allow(inconsistent_fields)]
#[derive(Debug, PartialEq, Eq)]
pub enum IpcFrame {
    Response { request_id: u64, error: String, data: Option<Json> },
    Event { name: String, data: Json },
}

pub enum IpcFrameView {
    Response { request_id: u64, error: Seq<char>, data: JsonView },
    Event { name: Seq<char>, data: JsonView },
}

impl View for IpcFrame {
    type V = IpcFrameView;

    open spec fn view(&self) -> IpcFrameView {
        match *self {
            IpcFrame::Response { request_id, error, data } => IpcFrameView::Response {
                request_id,
                error: error@,
                data: match data {
                    Some(v) => v@,
                    None => JsonView::Null,
                },
            },
            IpcFrame::Event { name, data } => IpcFrameView::Event { name: name@, data: data@ },
        }
    }
}

/// What a value from the player is: an answer where it carries a number,
/// else an event; nothing where what these need is missing.
pub open spec fn frame_of(value: JsonView) -> Option<IpcFrameView> {
    match value.unsigned_field("request_id"@) {
        Some(request_id) => match value.text_field("error"@) {
            Some(error) => Some(
                IpcFrameView::Response {
                    request_id,
                    error,
                    data: match value.field("data"@) {
                        Some(d) => d,
                        None => JsonView::Null,
                    },
                },
            ),
            None => None,
        },
        None => match value.text_field("event"@) {
            Some(name) => Some(IpcFrameView::Event { name, data: value }),
            None => None,
        },
    }
}

pub open spec fn opt_frame(o: Option<IpcFrame>) -> Option<IpcFrameView> {
    match o {
        Some(f) => Some(f@),
        None => None,
    }
}

/// Takes the value under `key` out of an object.
#[verifier::loop_isolation(false)]
fn take_field(value: Json, key: &str) -> (r: Option<Json>)
    ensures
        match r {
            Some(v) => value@.field(key@) == Some(v@),
            None => value@.field(key@) is None,
        },
{
    let ghost whole = value@;
    match value {
        Json::Object(entries) => {
            let ghost all = whole->Object_0;
            let mut entries = entries;
            let mut i: usize = 0;
            while i < entries.len()
                invariant
                    i <= entries@.len(),
                    all.len() == entries@.len(),
                    whole == JsonView::Object(all),
                    forall|k: int|
                        0 <= k < all.len() ==> #[trigger] all[k] == (
                            entries@[k].0@,
                            entries@[k].1@,
                        ),
                    whole.field(key@) == JsonView::entry_from(all, key@, i as int),
                decreases entries@.len() - i,
            {
                assert(all[i as int] == (entries@[i as int].0@, entries@[i as int].1@));
                if entries[i].0.as_str().eq(key) {
                    let entry = entries.swap_remove(i);
                    return Some(entry.1);
                }
                i += 1;
            }
            None
        },
        _ => None,
    }
}

/// Reads a value from the player.
pub fn frame_from(value: Json) -> (r: Option<IpcFrame>)
    ensures
        opt_frame(r) == frame_of(value@),
{
    match value.unsigned_field("request_id") {
        Some(request_id) => match value.owned_text_field("error") {
            Some(error) => {
                let data = take_field(value, "data");
                Some(IpcFrame::Response { request_id, error, data })
            },
            None => None,
        },
        None => match value.owned_text_field("event") {
            Some(name) => Some(IpcFrame::Event { name, data: value }),
            None => None,
        },
    }
}

/// Reads a line from the player; what is no JSON is nothing.
pub fn parse_frame(line: &str) -> (r: Option<IpcFrame>)
    ensures
        opt_frame(r) == match json_parse(line@) {
            Ok(value) => frame_of(value),
            Err(_) => None,
        },
{
    match parse(line) {
        Ok(value) => frame_from(value),
        Err(_) => None,
    }
}

/// A number of seconds as a span of time.
pub open spec fn span_of(value: JsonView, d: Option<Duration>) -> bool {
    match value.span() {
        Some(nanos) => if nanos < SPAN_LIMIT {
            d matches Some(span) && span@ == nanos
        } else {
            d is None
        },
        None => d is None,
    }
}

/// Reads a number of seconds. What is negative or no number is ignored: the
/// player sends such values while it changes tracks.
pub fn secs_to_duration(value: &Json) -> (r: Option<Duration>)
    ensures
        span_of(value@, r),
{
    match value.as_span() {
        Some(nanos) => Duration::from_nanos(nanos),
        None => None,
    }
}

/// Whether an event of the player's means this to us.
pub open spec fn event_means(name: Seq<char>, data: JsonView, event: Option<MpvEvent>) -> bool {
    if name == "property-change"@ {
        match (data.text_field("name"@), data.field("data"@)) {
            (Some(prop), Some(value)) => if prop == "time-pos"@ {
                match event {
                    Some(MpvEvent::Position { position }) => span_of(value, Some(position)),
                    None => span_of(value, None),
                    _ => false,
                }
            } else if prop == "duration"@ {
                match event {
                    Some(MpvEvent::Duration(d)) => span_of(value, Some(d)),
                    None => span_of(value, None),
                    _ => false,
                }
            } else if prop == "pause"@ {
                event == match value.boolean() {
                    Some(b) => Some(MpvEvent::Paused(b)),
                    None => None,
                }
            } else {
                event is None
            },
            _ => event is None,
        }
    } else if name == "end-file"@ {
        event == if data.text_field("reason"@) == Some("eof"@) {
            Some(MpvEvent::EndOfFile)
        } else {
            None
        }
    } else if name == "idle"@ {
        event == Some(MpvEvent::Idle)
    } else {
        event is None
    }
}

/// The names of properties that matter differ from each other.
proof fn lemma_property_names()
    ensures
        "time-pos"@ != "duration"@,
        "time-pos"@ != "pause"@,
        "duration"@ != "pause"@,
        "property-change"@ != "end-file"@,
        "property-change"@ != "idle"@,
        "end-file"@ != "idle"@,
{
    reveal_strlit("time-pos");
    reveal_strlit("duration");
    reveal_strlit("pause");
    reveal_strlit("property-change");
    reveal_strlit("end-file");
    reveal_strlit("idle");
    assert("time-pos"@[0] != "duration"@[0]);
    assert("time-pos"@.len() == 8 && "duration"@.len() == 8 && "pause"@.len() == 5);
    assert("property-change"@.len() == 15 && "end-file"@.len() == 8 && "idle"@.len() == 4);
}

/// What an event of the player's means. A property's value stands under
/// `data`, which is missing while the property has none. Only the reason
/// `eof` ends a track.
pub fn map_event(name: &str, data: &Json) -> (r: Option<MpvEvent>)
    ensures
        event_means(name@, data@, r),
{
    proof {
        lemma_property_names();
    }
    if name.eq("property-change") {
        match (data.text_field("name"), data.field("data")) {
            (Some(prop), Some(value)) => if prop.eq("time-pos") {
                match secs_to_duration(value) {
                    Some(position) => Some(MpvEvent::Position { position }),
                    None => None,
                }
            } else if prop.eq("duration") {
                match secs_to_duration(value) {
                    Some(d) => Some(MpvEvent::Duration(d)),
                    None => None,
                }
            } else if prop.eq("pause") {
                match value.as_bool() {
                    Some(b) => Some(MpvEvent::Paused(b)),
                    None => None,
                }
            } else {
                None
            },
            _ => None,
        }
    } else if name.eq("end-file") {
        match data.text_field("reason") {
            Some(reason) => if reason.eq("eof") {
                Some(MpvEvent::EndOfFile)
            } else {
                None
            },
            None => None,
        }
    } else if name.eq("idle") {
        Some(MpvEvent::Idle)
    } else {
        None
    }
}

/// Why playback broke off, where an event says that it did: a file ended
/// for a reason other than its end, a stop or the player's exit. What went
/// wrong with the file says more than the bare reason.
pub open spec fn failure_of(name: Seq<char>, data: JsonView) -> Option<Seq<char>> {
    if name != "end-file"@ {
        None
    } else {
        match data.text_field("reason"@) {
            Some(reason) => if reason == "eof"@ || reason == "stop"@ || reason == "quit"@ {
                None
            } else {
                match data.text_field("file_error"@) {
                    Some(error) => Some(error),
                    None => Some(reason),
                }
            },
            None => None,
        }
    }
}

/// Why playback broke off, if the event says that it did.
pub fn playback_failure(name: &str, data: &Json) -> (r: Option<String>)
    ensures
        crate::text::opt_text(r) == failure_of(name@, data@),
{
    if !name.eq("end-file") {
        return None;
    }
    match data.owned_text_field("reason") {
        Some(reason) => if reason.as_str().eq("eof") || reason.as_str().eq("stop")
            || reason.as_str().eq("quit") {
            None
        } else {
            match data.owned_text_field("file_error") {
                Some(error) => Some(error),
                None => Some(reason),
            }
        },
        None => None,
    }
}

/// An event that tells of a failure means nothing else, and the end of a
/// track is no failure.
pub proof fn lemma_failure_ends_no_track(name: Seq<char>, data: JsonView, event: Option<MpvEvent>)
    requires
        event_means(name, data, event),
    ensures
        failure_of(name, data) is Some ==> event is None,
        event == Some(MpvEvent::EndOfFile) ==> failure_of(name, data) is None,
{
    lemma_property_names();
}

/// What an answer says: its data, or why the command failed.
pub fn response_result(error: String, data: Option<Json>) -> (r: Result<Option<Json>, MpvError>)
    ensures
        error@ == "success"@ ==> r == Ok::<Option<Json>, MpvError>(data),
        error@ != "success"@ ==> (r matches Err(MpvError::Command(e)) && e@ == error@),
{
    if error.as_str().eq("success") {
        Ok(data)
    } else {
        Err(MpvError::Command(error))
    }
}

/// The commands that wait for an answer, by their numbers.
pub struct Pending {
    last: u64,
    waiting: Vec<u64>,
}

#[verifier::ext_equal]
pub struct PendingView {
    /// The number that was given last.
    pub last: u64,
    pub waiting: Set<u64>,
}

impl View for Pending {
    type V = PendingView;

    closed spec fn view(&self) -> PendingView {
        PendingView { last: self.last, waiting: self.waiting@.to_set() }
    }
}

impl Pending {
    pub closed spec fn wf(&self) -> bool {
        self.waiting@.no_duplicates()
    }

    pub fn new() -> (r: Self)
        ensures
            r.wf(),
            r@ == (PendingView { last: 1, waiting: Set::empty() }),
    {
        let r = Pending { last: 1, waiting: Vec::new() };
        assert(r@.waiting =~= Set::empty());
        r
    }

    fn place(&self, id: u64) -> (r: Option<usize>)
        ensures
            match r {
                Some(i) => i < self.waiting@.len() && self.waiting@[i as int] == id,
                None => !self.waiting@.contains(id),
            },
    {
        let mut i: usize = 0;
        while i < self.waiting.len()
            invariant
                i <= self.waiting@.len(),
                forall|k: int| 0 <= k < i ==> #[trigger] self.waiting@[k] != id,
            decreases self.waiting@.len() - i,
        {
            if self.waiting[i] == id {
                return Some(i);
            }
            i += 1;
        }
        None
    }

    /// The number of a new command, which waits from now on.
    pub fn alloc_id(&mut self) -> (r: u64)
        requires
            old(self).wf(),
        ensures
            final(self).wf(),
            r == crate::player::next_number(old(self)@.last),
            final(self)@ == (PendingView { last: r, waiting: old(self)@.waiting.insert(r) }),
    {
        let ghost before = self.waiting@;
        let id: u64 = if self.last == u64::MAX {
            0
        } else {
            self.last + 1
        };
        self.last = id;
        match self.place(id) {
            Some(i) => {
                assert(before[i as int] == id);
                assert(before.to_set().insert(id) =~= before.to_set());
            },
            None => {
                self.waiting.push(id);
                assert(self.waiting@.to_set() =~= before.to_set().insert(id)) by {
                    assert(self.waiting@[before.len() as int] == id);
                    assert forall|x: u64| before.contains(x) implies self.waiting@.contains(x) by {
                        let k = choose|k: int| 0 <= k < before.len() && before[k] == x;
                        assert(self.waiting@[k] == x);
                    }
                }
            },
        }
        id
    }

    /// An answer has come: tells whether anyone waits for it, and then no
    /// longer waits.
    pub fn answered(&mut self, id: u64) -> (r: bool)
        requires
            old(self).wf(),
        ensures
            final(self).wf(),
            r == old(self)@.waiting.contains(id),
            final(self)@ == (PendingView {
                waiting: old(self)@.waiting.remove(id),
                ..old(self)@
            }),
    {
        let ghost before = self.waiting@;
        match self.place(id) {
            Some(i) => {
                assert(before[i as int] == id);
                self.waiting.remove(i);
                let ghost after = self.waiting@;
                assert(after =~= before.remove(i as int));
                assert(after.to_set() =~= before.to_set().remove(id)) by {
                    assert forall|x: u64| after.contains(x) implies before.contains(x) && x
                        != id by {
                        let k = choose|k: int| 0 <= k < after.len() && after[k] == x;
                        let j = if k < i {
                            k
                        } else {
                            k + 1
                        };
                        assert(before[j] == x);
                    }
                    assert forall|x: u64| before.contains(x) && x != id implies after.contains(
                        x,
                    ) by {
                        let k = choose|k: int| 0 <= k < before.len() && before[k] == x;
                        let j = if k < i {
                            k
                        } else {
                            k - 1
                        };
                        assert(after[j] == x);
                    }
                }
                assert(after.no_duplicates()) by {
                    assert forall|a: int, b: int| 0 <= a < b < after.len() implies after[a]
                        != after[b] by {
                        let x = if a < i {
                            a
                        } else {
                            a + 1
                        };
                        let y = if b < i {
                            b
                        } else {
                            b + 1
                        };
                        assert(before[x] == after[a] && before[y] == after[b]);
                    }
                }
                true
            },
            None => {
                assert(before.to_set().remove(id) =~= before.to_set());
                false
            },
        }
    }

    /// The connection has ended: hands out all that wait, so that none of
    /// them waits for ever.
    pub fn fail_pending(&mut self) -> (r: Vec<u64>)
        requires
            old(self).wf(),
        ensures
            final(self).wf(),
            final(self)@ == (PendingView { waiting: Set::empty(), ..old(self)@ }),
            r@.no_duplicates(),
            r@.to_set() == old(self)@.waiting,
    {
        let mut out: Vec<u64> = Vec::new();
        std::mem::swap(&mut out, &mut self.waiting);
        assert(self@.waiting =~= Set::empty());
        out
    }
}

/// What the supervisor does when the process has ended.
#[derive(Clone, Copy, Debug, PartialEq, Eq, Structural)]
pub enum Supervision {
    /// The daemon goes down: the process ended by its command.
    Stop,
    /// Too many starts failed.
    GiveUp { attempts: u32 },
    /// Start it after this many nanoseconds.
    Restart { after: u128 },
}

/// Keeps the process alive, with a limit on how often it is started.
pub struct Supervisor {
    consecutive: u32,
}

/// What follows from the end of the process after so many failed starts.
pub open spec fn supervised(failures: u32, shutting_down: bool, since_start: u128) -> Supervision {
    if shutting_down {
        Supervision::Stop
    } else if failures >= MAX_CONSECUTIVE_RESTARTS {
        Supervision::GiveUp { attempts: failures }
    } else if since_start < RESTART_COOLDOWN_NANOS {
        Supervision::Restart { after: (RESTART_COOLDOWN_NANOS - since_start) as u128 }
    } else {
        Supervision::Restart { after: 0 }
    }
}

impl Supervisor {
    /// How many starts failed in a row.
    pub closed spec fn failures(&self) -> u32 {
        self.consecutive
    }

    pub open spec fn wf(&self) -> bool {
        self.failures() <= MAX_CONSECUTIVE_RESTARTS
    }

    pub fn new() -> (r: Self)
        ensures
            r.wf(),
            r.failures() == 0,
    {
        Supervisor { consecutive: 0 }
    }

    /// The process has ended, or its start has failed; `since_start`
    /// nanoseconds have passed since that start.
    pub fn ended(&self, shutting_down: bool, since_start: u128) -> (r: Supervision)
        ensures
            r == supervised(self.failures(), shutting_down, since_start),
    {
        if shutting_down {
            Supervision::Stop
        } else if self.consecutive >= MAX_CONSECUTIVE_RESTARTS {
            Supervision::GiveUp { attempts: self.consecutive }
        } else if since_start < RESTART_COOLDOWN_NANOS {
            Supervision::Restart { after: RESTART_COOLDOWN_NANOS - since_start }
        } else {
            Supervision::Restart { after: 0 }
        }
    }

    /// Takes note of whether a start succeeded, and tells what to announce.
    pub fn started(&mut self, success: bool) -> (r: Option<MpvEvent>)
        requires
            old(self).wf(),
            old(self).failures() < MAX_CONSECUTIVE_RESTARTS,
        ensures
            final(self).wf(),
            success ==> final(self).failures() == 0 && r == Some(MpvEvent::Restarted),
            !success ==> final(self).failures() == old(self).failures() + 1 && r is None,
    {
        if success {
            self.consecutive = 0;
            Some(MpvEvent::Restarted)
        } else {
            self.consecutive = self.consecutive + 1;
            None
        }
    }
}

/// Two starts are never closer than the cooldown: `since_start` has passed
/// when the process ends, and the wait makes up for the rest. After so many
/// failures in a row there is no further start.
pub proof fn lemma_restarts_keep_their_distance(
    failures: u32,
    shutting_down: bool,
    since_start: u128,
)
    ensures
        supervised(failures, shutting_down, since_start) matches Supervision::Restart { after }
            ==> !shutting_down && failures < MAX_CONSECUTIVE_RESTARTS && since_start + after
            >= RESTART_COOLDOWN_NANOS,
{
}

/// What the player says of its properties is what it means: a pause that is
/// set or lifted, a position and a length in seconds. While a property has
/// no value it means nothing.
pub proof fn lemma_properties_mean_what_they_say(
    data: JsonView,
    value: JsonView,
    event: Option<MpvEvent>,
    b: bool,
    d: Duration,
)
    requires
        event_means("property-change"@, data, event),
        d@ < SPAN_LIMIT,
    ensures
        data.field("data"@) is None ==> event is None,
        data.field("data"@) == Some(value) ==> {
            let name = data.text_field("name"@);
            &&& name == Some("pause"@) && value == JsonView::Bool(b) ==> event == Some(
                MpvEvent::Paused(b),
            )
            &&& name == Some("time-pos"@) && value.span() == Some(d@ as u128) ==> (event matches Some(
                MpvEvent::Position { position },
            ) && position@ == d@)
            &&& name == Some("duration"@) && value.span() == Some(d@ as u128) ==> (event matches Some(
                MpvEvent::Duration(length),
            ) && length@ == d@)
            &&& value == JsonView::Null ==> event is None
            &&& name is None ==> event is None
        },
{
    lemma_property_names();
}

/// A file that played to its end ends the track; one that ended for another
/// reason does not, and is a failure unless it was stopped on purpose. The
/// failure is told by what went wrong with the file, where that is known,
/// else by the reason. A player without a file is idle.
pub proof fn lemma_the_end_of_a_file_goes_by_its_reason(
    data: JsonView,
    reason: Seq<char>,
    event: Option<MpvEvent>,
)
    requires
        data.text_field("reason"@) == Some(reason),
        event_means("end-file"@, data, event),
    ensures
        event == Some(MpvEvent::EndOfFile) <==> reason == "eof"@,
        reason != "eof"@ ==> event is None,
        failure_of("end-file"@, data) is None <==> (reason == "eof"@ || reason == "stop"@ || reason
            == "quit"@),
        failure_of("end-file"@, data) matches Some(told) ==> told == (match data.text_field(
            "file_error"@,
        ) {
            Some(error) => error,
            None => reason,
        }),
        event_means("idle"@, data, Some(MpvEvent::Idle)),
        !event_means("idle"@, data, None),
{
    lemma_property_names();
}

/// A line with a number is the answer to the request of that number, and
/// one without is an event by its name. Of an answer that holds no data
/// there is none.
pub proof fn lemma_answers_are_told_by_their_number(
    value: JsonView,
    id: u64,
    error: Seq<char>,
    name: Seq<char>,
)
    ensures
        value.unsigned_field("request_id"@) == Some(id) && value.text_field("error"@) == Some(error)
            ==> (frame_of(value) matches Some(IpcFrameView::Response { request_id, error: e, data })
            && request_id == id && e == error && (value.field("data"@) is None ==> data
            == JsonView::Null) && (value.field("data"@) matches Some(d) ==> data == d)),
        value.unsigned_field("request_id"@) is None && value.text_field("event"@) == Some(name)
            ==> frame_of(value) == Some(IpcFrameView::Event { name, data: value }),
        value.unsigned_field("request_id"@) is None && value.text_field("event"@) is None
            ==> frame_of(value) is None,
{
}

/// A request is a list of its arguments with the number behind it: setting
/// a property names it and the value, loading a file names what is loaded
/// and that it replaces what plays.
pub proof fn lemma_requests_are_written_as_lists(
    args: Seq<Arg>,
    name: Seq<char>,
    value: Seq<char>,
    id: u64,
)
    ensures
        is_set(args, name, value) ==> request_text(args, id) == "{\"command\":["@ + (json_text(
            "set_property"@,
        ) + ","@ + json_text(name) + ","@ + value) + "],\"request_id\":"@ + decimal_text(
            id as nat,
        ) + "}"@,
        is_loadfile(args, name) ==> request_text(args, id) == "{\"command\":["@ + (json_text(
            "loadfile"@,
        ) + ","@ + json_text(name) + ","@ + json_text("replace"@)) + "],\"request_id\":"@
            + decimal_text(id as nat) + "}"@,
        arg_text(Arg::Flag(true)) == "true"@,
        arg_text(Arg::Flag(false)) == "false"@,
{
    if args.len() == 3 {
        let t = arg_texts(args);
        reveal_with_fuel(joined, 4);
        assert(t =~= seq![arg_text(args[0]), arg_text(args[1]), arg_text(args[2])]);
        assert(t.drop_last() =~= seq![t[0], t[1]]);
        assert(t.drop_last().drop_last() =~= seq![t[0]]);
        assert(joined(t, ","@) =~= t[0] + ","@ + t[1] + ","@ + t[2]);
    }
}

/// A file is loaded by its path and needs no headers; a link is loaded by
/// itself, and its user agent is all that is said before.
pub proof fn lemma_sources_are_loaded_by_path_or_link(
    path: Seq<char>,
    url: Seq<char>,
    agent: Seq<char>,
    at: Option<SystemTime>,
)
    ensures
        target_of(StreamSourceView::Local(path)) == path,
        target_of(StreamSourceView::Remote { url, user_agent: Some(agent), expires_at: at }) == url,
        target_of(StreamSourceView::Remote { url, user_agent: None, expires_at: at }) == url,
        headers_for(StreamSourceView::Local(path)) is None,
        headers_for(StreamSourceView::Remote { url, user_agent: None, expires_at: at }) is None,
        headers_for(StreamSourceView::Remote { url, user_agent: Some(agent), expires_at: at })
            == Some(seq!["User-Agent: "@ + agent]),
{
}

/// The process is started without picture and terminal, waits where there
/// is nothing to play, listens on the socket and has the volume; it never
/// resolves links itself.
pub proof fn lemma_the_process_is_started_to_be_steered(socket: Seq<char>, volume: Seq<char>)
    ensures
        mpv_arg_texts(socket, volume).contains("--idle=yes"@),
        mpv_arg_texts(socket, volume).contains("--no-video"@),
        mpv_arg_texts(socket, volume).contains("--no-ytdl"@),
        mpv_arg_texts(socket, volume).contains("--no-terminal"@),
        mpv_arg_texts(socket, volume).contains("--input-ipc-server="@ + socket),
        mpv_arg_texts(socket, volume).contains("--volume="@ + volume),
{
    let args = mpv_arg_texts(socket, volume);
    assert(args[0] == "--idle=yes"@ && args[1] == "--no-video"@ && args[2] == "--no-ytdl"@
        && args[3] == "--no-terminal"@ && args[4] == "--input-ipc-server="@ + socket && args[5]
        == "--volume="@ + volume);
}

/// A process that ended while the daemon goes down stays down; else it is
/// started again two seconds after the last start, or at once if these have
/// passed, until five starts in a row have failed.
pub proof fn lemma_the_process_is_kept_alive(
    failures: u32,
    shutting_down: bool,
    since_start: u128,
)
    ensures
        shutting_down <==> supervised(failures, shutting_down, since_start) is Stop,
        !shutting_down && failures >= 5 ==> supervised(failures, shutting_down, since_start) == (
        Supervision::GiveUp { attempts: failures }),
        !shutting_down && failures < 5 ==> (supervised(failures, shutting_down, since_start)
            matches Supervision::Restart { after } && (since_start < 2_000_000_000 ==> after
            + since_start == 2_000_000_000) && (since_start >= 2_000_000_000 ==> after == 0)),
{
}

/// Headers are handed over as a list of quoted texts.
pub proof fn lemma_headers_are_a_list(header: Seq<char>)
    ensures
        header_value(seq![header]) == "["@ + json_text(header) + "]"@,
{
    let quoted = quoted_texts(seq![header]);
    assert(quoted =~= seq![json_text(header)]);
    lemma_parts_are_glued_in_order(Seq::empty(), json_text(header), ","@);
}

/// What fails between the daemon and the player is told with its reason.
pub proof fn lemma_player_failures_are_told(reason: String)
    ensures
        mpv_message(MpvError::Ipc(reason)) == "mpv IPC: "@ + reason@,
        mpv_message(MpvError::Command(reason)) == "mpv ответил ошибкой: "@ + reason@,
        mpv_message(MpvError::Closed) == "соединение с mpv закрыто"@,
{
}

/// A subscription to a property is asked for under a number of its own, and
/// several headers stand in their list one behind the other.
pub proof fn lemma_subscriptions_are_written_as_lists(
    args: Seq<Arg>,
    number: u64,
    name: Seq<char>,
    id: u64,
    a: Seq<char>,
    b: Seq<char>,
)
    ensures
        is_observe(args, number, name) ==> request_text(args, id) == "{\"command\":["@ + (
        json_text("observe_property"@) + ","@ + decimal_text(number as nat) + ","@ + json_text(name))
            + "],\"request_id\":"@ + decimal_text(id as nat) + "}"@,
        header_value(seq![a, b]) == "["@ + (json_text(a) + ","@ + json_text(b)) + "]"@,
{
    if args.len() == 3 {
        let t = arg_texts(args);
        reveal_with_fuel(joined, 4);
        assert(t =~= seq![arg_text(args[0]), arg_text(args[1]), arg_text(args[2])]);
        assert(t.drop_last() =~= seq![t[0], t[1]]);
        assert(t.drop_last().drop_last() =~= seq![t[0]]);
        assert(joined(t, ","@) =~= t[0] + ","@ + t[1] + ","@ + t[2]);
    }
    let quoted = quoted_texts(seq![a, b]);
    assert(quoted =~= seq![json_text(a)].push(json_text(b)));
    lemma_parts_are_glued_in_order(seq![json_text(a)], json_text(b), ","@);
    lemma_parts_are_glued_in_order(Seq::empty(), json_text(a), ","@);
}

} // verus!
