//! Calling `yt-dlp`: its arguments, and what its answer means.

use vstd::prelude::*;

use crate::chromium::{lossy_text, utf8_lossy};
use crate::cookies::{ytdlp_args_of, CookieSource};
use crate::double::Double;
use crate::json::{json_parse, json_views, parse, Json, JsonView};
use crate::model::{ProviderId, StreamSource, StreamSourceView};
use crate::provider::{ProviderError, ProviderErrorView};
use crate::text::{
    behind, concat2, concat3, contains, contains_text, decimal, decimal_text,
    lemma_decimal_round_trip, lemma_pieces_lie_between_separators,
    lemma_texts_are_found_where_they_stand, opt_text, parse_u64, parsed_u64, split, split_text,
    strip_prefix, texts, trim, trimmed,
};
use crate::time::{Duration, SystemTime, NANOS_PER_SEC};

verus! {

/// A prepared call: the program, and how long it may take. A slow answer
/// is bearable, a hung one is not.
pub struct YtDlp {
    binary: String,
    timeout: Duration,
}

/// What to resolve, and how.
#[derive(Debug, PartialEq, Eq)]
pub struct YtDlpRequest {
    pub provider: ProviderId,
    pub page_url: String,
    /// For example `bestaudio[acodec=opus]/bestaudio`.
    pub format: String,
    /// Values for `--extractor-args`.
    pub extractor_args: Vec<String>,
    pub cookies: Option<CookieSource>,
}

/// The stream that was picked.
#[derive(Debug, PartialEq, Eq)]
pub struct YtDlpMedia {
    pub url: String,
    pub user_agent: Option<String>,
    pub expires_at: Option<SystemTime>,
    pub ext: String,
    pub abr: Option<Double>,
    pub acodec: Option<String>,
}

#[verifier::ext_equal]
pub struct YtDlpMediaView {
    pub url: Seq<char>,
    pub user_agent: Option<Seq<char>>,
    pub expires_at: Option<SystemTime>,
    pub ext: Seq<char>,
    pub abr: Option<Double>,
    pub acodec: Option<Seq<char>>,
}

impl View for YtDlpMedia {
    type V = YtDlpMediaView;

    open spec fn view(&self) -> YtDlpMediaView {
        YtDlpMediaView {
            url: self.url@,
            user_agent: opt_text(self.user_agent),
            expires_at: self.expires_at,
            ext: self.ext@,
            abr: self.abr,
            acodec: opt_text(self.acodec),
        }
    }
}

/// A result by view.
pub open spec fn media_result(r: Result<YtDlpMedia, ProviderError>) -> Result<
    YtDlpMediaView,
    ProviderErrorView,
> {
    match r {
        Ok(m) => Ok(m@),
        Err(e) => Err(e@),
    }
}

/// The value of the first query parameter `expire`, cut at `?` and `&`.
pub open spec fn expire_piece(pieces: Seq<Seq<char>>, from: int) -> Option<Seq<char>>
    decreases pieces.len() - from,
{
    if from >= pieces.len() {
        None
    } else {
        match behind(pieces[from], "expire="@) {
            Some(v) => Some(v),
            None => expire_piece(pieces, from + 1),
        }
    }
}

/// When a stream's link dies, from its parameter `expire`.
pub open spec fn expiry_of(url: Seq<char>) -> Option<SystemTime> {
    match expire_piece(split_text(url, '?', '&'), 0) {
        Some(v) => match parsed_u64(v) {
            Some(ts) => Some(SystemTime { unix_nanos: (ts * NANOS_PER_SEC) as i128 }),
            None => None,
        },
        None => None,
    }
}

/// When a stream's link dies. Without the parameter it is not known to.
pub fn parse_expire(url: &str) -> (r: Option<SystemTime>)
    ensures
        r == expiry_of(url@),
{
    let pieces = split(url, '?', '&');
    let ghost pv = texts(pieces@);
    let mut i: usize = 0;
    while i < pieces.len()
        invariant
            i <= pieces@.len(),
            pv == texts(pieces@),
            pv == split_text(url@, '?', '&'),
            expire_piece(pv, 0) == expire_piece(pv, i as int),
        decreases pieces@.len() - i,
    {
        assert(pv[i as int] == pieces@[i as int]@);
        if let Some(value) = strip_prefix(pieces[i].as_str(), "expire=") {
            return match parse_u64(value.as_str()) {
                Some(ts) => Some(SystemTime::from_unix_secs(ts)),
                None => None,
            };
        }
        i += 1;
    }
    None
}

/// The picked format: the first of the downloads that the tool would make.
pub open spec fn picked_format(value: JsonView) -> Option<JsonView> {
    match value.list_field("requested_downloads"@) {
        Some(list) => if list.len() > 0 {
            Some(list[0])
        } else {
            None
        },
        None => None,
    }
}

/// The user agent among a format's headers: the only header that is taken.
pub open spec fn user_agent_of(format: JsonView) -> Option<Seq<char>> {
    match format.field("http_headers"@) {
        Some(headers) => headers.text_field("User-Agent"@),
        None => None,
    }
}

/// What the tool's answer says of the picked stream.
pub open spec fn media_of(provider: Seq<char>, value: JsonView) -> Result<
    YtDlpMediaView,
    ProviderErrorView,
> {
    match picked_format(value) {
        Some(format) => match format.text_field("url"@) {
            Some(url) => Ok(
                YtDlpMediaView {
                    url,
                    user_agent: user_agent_of(format),
                    expires_at: expiry_of(url),
                    ext: match format.text_field("ext"@) {
                        Some(e) => e,
                        None => Seq::empty(),
                    },
                    abr: match format.field("abr"@) {
                        Some(v) => match v.double() {
                            Some(bits) => Some(Double { bits }),
                            None => None,
                        },
                        None => None,
                    },
                    acodec: format.text_field("acodec"@),
                },
            ),
            None => Err(
                ProviderErrorView::Format { provider, reason: "в выбранном формате нет url"@ },
            ),
        },
        None => Err(
            ProviderErrorView::Format { provider, reason: "в ответе нет requested_downloads"@ },
        ),
    }
}

/// Reads the tool's answer.
pub fn parse_media(provider: ProviderId, value: &Json) -> (r: Result<YtDlpMedia, ProviderError>)
    ensures
        media_result(r) == media_of(provider@, value@),
{
    let list = match value.list_field("requested_downloads") {
        Some(list) => list,
        None => {
            return Err(
                ProviderError::Format {
                    provider,
                    reason: "в ответе нет requested_downloads".to_owned(),
                },
            );
        },
    };
    assert(json_views(list@).len() == list@.len());
    if list.len() == 0 {
        return Err(
            ProviderError::Format {
                provider,
                reason: "в ответе нет requested_downloads".to_owned(),
            },
        );
    }
    let format = &list[0];
    assert(json_views(list@)[0] == format@);
    let url: String = match format.owned_text_field("url") {
        Some(url) => url,
        None => {
            return Err(
                ProviderError::Format {
                    provider,
                    reason: "в выбранном формате нет url".to_owned(),
                },
            );
        },
    };
    let user_agent: Option<String> = match format.field("http_headers") {
        Some(headers) => headers.owned_text_field("User-Agent"),
        None => None,
    };
    let ext: String = match format.owned_text_field("ext") {
        Some(e) => e,
        None => String::new(),
    };
    let abr: Option<Double> = match format.field("abr") {
        Some(v) => match v.as_double() {
            Some(bits) => Some(Double { bits }),
            None => None,
        },
        None => None,
    };
    let expires_at = parse_expire(url.as_str());
    Ok(
        YtDlpMedia {
            url,
            user_agent,
            expires_at,
            ext,
            abr,
            acodec: format.owned_text_field("acodec"),
        },
    )
}

/// The last line that is not blank, trimmed; the trimmed text between line
/// feeds, from the end.
pub open spec fn last_words(pieces: Seq<Seq<char>>) -> Option<Seq<char>>
    decreases pieces.len(),
{
    if pieces.len() == 0 {
        None
    } else if trimmed(pieces.last()).len() > 0 {
        Some(trimmed(pieces.last()))
    } else {
        last_words(pieces.drop_last())
    }
}

/// Why the tool failed, from what it wrote to its error stream: the last
/// line that is not blank.
pub open spec fn failure_reason(stderr: Seq<char>) -> Seq<char> {
    match last_words(split_text(stderr, '\n', '\n')) {
        Some(s) => s,
        None => "нет объяснения в stderr"@,
    }
}

/// Whether the service wants proof that it talks to a person, which is how
/// it answers without a session.
pub open spec fn bot_gate(stderr: Seq<char>) -> bool {
    contains_text(stderr, "Sign in to confirm"@) || contains_text(
        stderr,
        "confirm you're not a bot"@,
    )
}

pub open spec fn failure_of(provider: Seq<char>, stderr: Seq<char>) -> ProviderErrorView {
    if bot_gate(stderr) {
        ProviderErrorView::Auth { provider, reason: failure_reason(stderr) }
    } else {
        ProviderErrorView::Tool { tool: "yt-dlp"@, reason: failure_reason(stderr) }
    }
}

/// The error that the tool's error stream stands for. The demand for a
/// proof of being a person is a matter of the session, not of the tool.
pub fn stderr_error(provider: ProviderId, stderr: &str) -> (r: ProviderError)
    ensures
        r@ == failure_of(provider@, stderr@),
{
    let pieces = split(stderr, '\n', '\n');
    let ghost pv = texts(pieces@);
    let mut i: usize = pieces.len();
    let mut reason: Option<String> = None;
    assert(pv.subrange(0, pv.len() as int) =~= pv);
    while i > 0 && reason.is_none()
        invariant
            i <= pieces@.len(),
            pv == texts(pieces@),
            match reason {
                Some(s) => last_words(pv) == Some(s@),
                None => last_words(pv) == last_words(pv.subrange(0, i as int)),
            },
        decreases i,
    {
        i -= 1;
        assert(pv.subrange(0, i + 1).drop_last() =~= pv.subrange(0, i as int));
        assert(pv[i as int] == pieces@[i as int]@);
        let words = trim(pieces[i].as_str());
        if !words.as_str().is_empty() {
            reason = Some(words);
        }
    }
    let reason: String = match reason {
        Some(s) => s,
        None => "нет объяснения в stderr".to_owned(),
    };
    let gated: bool = contains(stderr, "Sign in to confirm") || contains(
        stderr,
        "confirm you're not a bot",
    );
    if gated {
        ProviderError::Auth { provider, reason }
    } else {
        ProviderError::Tool { tool: "yt-dlp", reason }
    }
}

/// How a run of the tool ended.
pub enum RunOutcome {
    /// The program did not start.
    NotStarted { error: String },
    /// Waiting for it failed.
    WaitFailed { error: String },
    /// It did not end in time and was killed.
    TimedOut,
    Exited { success: bool, stdout: Vec<u8>, stderr: Vec<u8> },
}

pub open spec fn tool_error(reason: Seq<char>) -> ProviderErrorView {
    ProviderErrorView::Tool { tool: "yt-dlp"@, reason }
}

/// The pairs `--extractor-args`, value.
pub open spec fn extractor_pairs(values: Seq<Seq<char>>) -> Seq<Seq<char>>
    decreases values.len(),
{
    if values.len() == 0 {
        Seq::empty()
    } else {
        extractor_pairs(values.drop_last()) + seq!["--extractor-args"@, values.last()]
    }
}

/// The arguments of a call.
pub open spec fn media_arg_texts(req: YtDlpRequest) -> Seq<Seq<char>> {
    seq!["--no-warnings"@, "--quiet"@, "-J"@, "-f"@, req.format@] + extractor_pairs(
        texts(req.extractor_args@),
    ) + (match req.cookies {
        Some(src) => ytdlp_args_of(src@),
        None => Seq::empty(),
    }) + seq![req.page_url@]
}

impl YtDlp {
    pub closed spec fn binary_text(&self) -> Seq<char> {
        self.binary@
    }

    pub closed spec fn limit(&self) -> Duration {
        self.timeout
    }

    pub fn new(binary: &str) -> (r: Self)
        ensures
            r.binary_text() == binary@,
            r.limit()@ == 60 * NANOS_PER_SEC,
    {
        YtDlp { binary: binary.to_owned(), timeout: Duration::from_secs(60) }
    }

    /// Sets how long a call may take.
    pub fn timeout(self, dur: Duration) -> (r: Self)
        ensures
            r.binary_text() == self.binary_text(),
            r.limit() == dur,
    {
        YtDlp { binary: self.binary, timeout: dur }
    }

    pub fn binary(&self) -> (r: &str)
        ensures
            r@ == self.binary_text(),
    {
        self.binary.as_str()
    }

    pub fn time_limit(&self) -> (r: Duration)
        ensures
            r == self.limit(),
    {
        self.timeout
    }

    /// The arguments of a call that describes a page's streams.
    pub fn media_args(req: &YtDlpRequest) -> (r: Vec<String>)
        ensures
            texts(r@) == media_arg_texts(*req),
    {
        let mut args: Vec<String> = Vec::new();
        args.push("--no-warnings".to_owned());
        args.push("--quiet".to_owned());
        args.push("-J".to_owned());
        args.push("-f".to_owned());
        args.push(req.format.clone());
        let ghost head = seq!["--no-warnings"@, "--quiet"@, "-J"@, "-f"@, req.format@];
        assert(texts(args@) =~= head);
        let ghost values = texts(req.extractor_args@);
        let mut i: usize = 0;
        assert(values.subrange(0, 0) =~= Seq::empty());
        assert(texts(args@) =~= head + extractor_pairs(values.subrange(0, 0)));
        while i < req.extractor_args.len()
            invariant
                i <= req.extractor_args@.len(),
                values == texts(req.extractor_args@),
                texts(args@) == head + extractor_pairs(values.subrange(0, i as int)),
            decreases req.extractor_args@.len() - i,
        {
            let ghost had = texts(args@);
            assert(values.subrange(0, i + 1).drop_last() =~= values.subrange(0, i as int));
            args.push("--extractor-args".to_owned());
            args.push(req.extractor_args[i].clone());
            assert(texts(args@) =~= had + seq!["--extractor-args"@, values[i as int]]);
            i += 1;
            assert(texts(args@) =~= head + extractor_pairs(values.subrange(0, i as int)));
        }
        assert(values.subrange(0, i as int) =~= values);
        let ghost had = texts(args@);
        let ghost mut jar: Seq<Seq<char>> = Seq::empty();
        if let Some(src) = &req.cookies {
            let mut more = src.as_ytdlp_args();
            proof {
                jar = texts(more@);
            }
            args.append(&mut more);
        }
        assert(texts(args@) =~= had + jar);
        args.push(req.page_url.clone());
        assert(texts(args@) =~= had + jar + seq![req.page_url@]);
        args
    }

    /// What a run gave: the tool's output, or why there is none.
    pub fn outcome(&self, provider: ProviderId, run: RunOutcome) -> (r: Result<
        String,
        ProviderError,
    >)
        ensures
            match run {
                RunOutcome::NotStarted { error } => r matches Err(e) && e@ == tool_error(
                    "не удалось запустить "@ + self.binary_text() + ": "@ + error@,
                ),
                RunOutcome::WaitFailed { error } => r matches Err(e) && e@ == tool_error(
                    "сбой ввода-вывода: "@ + error@,
                ),
                RunOutcome::TimedOut => r matches Err(e) && e@ == tool_error(
                    "yt-dlp не ответил за "@ + decimal_text(
                        self.limit()@ / (NANOS_PER_SEC as nat),
                    ) + "с"@,
                ),
                RunOutcome::Exited { success, stdout, stderr } => if success {
                    r matches Ok(out) && out@ == utf8_lossy(stdout@)
                } else {
                    r matches Err(e) && e@ == failure_of(provider@, utf8_lossy(stderr@))
                },
            },
    {
        match run {
            RunOutcome::NotStarted { error } => Err(
                ProviderError::Tool {
                    tool: "yt-dlp",
                    reason: concat2(
                        concat3("не удалось запустить ", self.binary.as_str(), ": ").as_str(),
                        error.as_str(),
                    ),
                },
            ),
            RunOutcome::WaitFailed { error } => Err(
                ProviderError::Tool {
                    tool: "yt-dlp",
                    reason: concat2("сбой ввода-вывода: ", error.as_str()),
                },
            ),
            RunOutcome::TimedOut => Err(
                ProviderError::Tool {
                    tool: "yt-dlp",
                    reason: concat3(
                        "yt-dlp не ответил за ",
                        decimal(self.timeout.as_secs()).as_str(),
                        "с",
                    ),
                },
            ),
            RunOutcome::Exited { success, stdout, stderr } => if success {
                Ok(lossy_text(stdout.as_slice()))
            } else {
                let text = lossy_text(stderr.as_slice());
                Err(stderr_error(provider, text.as_str()))
            },
        }
    }

    /// Reads the tool's whole output.
    pub fn media(provider: ProviderId, out: &str) -> (r: Result<YtDlpMedia, ProviderError>)
        ensures
            media_result(r) == match json_parse(out@) {
                Ok(value) => media_of(provider@, value),
                Err(e) => Err(
                    ProviderErrorView::Format {
                        provider: provider@,
                        reason: "yt-dlp вернул не-JSON: "@ + e,
                    },
                ),
            },
    {
        match parse(out) {
            Ok(value) => parse_media(provider, &value),
            Err(e) => Err(
                ProviderError::Format {
                    provider,
                    reason: concat2("yt-dlp вернул не-JSON: ", e.as_str()),
                },
            ),
        }
    }

    /// The stream as a source to play from.
    pub fn to_stream_source(media: YtDlpMedia) -> (r: StreamSource)
        ensures
            r@ == (StreamSourceView::Remote {
                url: media@.url,
                user_agent: media@.user_agent,
                expires_at: media@.expires_at,
            }),
    {
        StreamSource::Remote {
            url: media.url,
            user_agent: media.user_agent,
            expires_at: media.expires_at,
        }
    }
}

/// A link dies at the second that its parameter `expire` names, wherever
/// the parameter stands among the others; a link without it is not known to
/// die.
pub proof fn lemma_links_name_their_deadline(base: Seq<char>, rest: Seq<char>, secs: u64)
    requires
        forall|i: int| 0 <= i < base.len() ==> #[trigger] base[i] != '?' && base[i] != '&',
        behind(base, "expire="@) is None,
        no_deadline(rest),
    ensures
        expiry_of(base) is None,
        expiry_of(base.push('?') + ("expire="@ + decimal_text(secs as nat))) == Some(
            SystemTime { unix_nanos: (secs * 1_000_000_000) as i128 },
        ),
        expiry_of(base.push('?') + (("expire="@ + decimal_text(secs as nat)).push('&') + rest))
            == Some(SystemTime { unix_nanos: (secs * 1_000_000_000) as i128 }),
        expiry_of(base.push('?') + (rest.push('&') + ("expire="@ + decimal_text(secs as nat))))
            == Some(SystemTime { unix_nanos: (secs * 1_000_000_000) as i128 }),
{
    let value = "expire="@ + decimal_text(secs as nat);
    lemma_deadline_piece(secs);
    lemma_pieces_lie_between_separators(value, rest, '?', '&');
    lemma_deadline_comes_first(base, value, Seq::empty());
    lemma_deadline_comes_first(base, value.push('&') + rest, split_text(rest, '?', '&'));
    lemma_deadline_comes_last(base, rest, value);
}

/// The piece of a link that names its deadline.
proof fn lemma_deadline_piece(secs: u64)
    ensures
        ({
            let value = "expire="@ + decimal_text(secs as nat);
            &&& forall|i: int| 0 <= i < value.len() ==> #[trigger] value[i] != '?' && value[i] != '&'
            &&& behind(value, "expire="@) == Some(decimal_text(secs as nat))
            &&& parsed_u64(decimal_text(secs as nat)) == Some(secs)
            &&& split_text(value, '?', '&') == seq![value]
        }),
{
    let number = decimal_text(secs as nat);
    let value = "expire="@ + number;
    lemma_decimal_round_trip(secs);
    assert(behind(value, "expire="@) == Some(number)) by {
        lemma_texts_are_found_where_they_stand(Seq::empty(), "expire="@, number, value);
    }
    lemma_number_has_no_separators(secs as nat);
    lemma_piece_has_no_separators(number);
    assert(split_text(value, '?', '&') == seq![value]) by {
        lemma_pieces_lie_between_separators(value, value, '?', '&');
    }
}

proof fn lemma_piece_has_no_separators(number: Seq<char>)
    requires
        forall|i: int| 0 <= i < number.len() ==> #[trigger] number[i] != '?' && number[i] != '&',
    ensures
        forall|i: int|
            0 <= i < ("expire="@ + number).len() ==> #[trigger] ("expire="@ + number)[i] != '?' && (
            "expire="@ + number)[i] != '&',
{
    reveal_strlit("expire=");
    let head = "expire="@;
    let value = head + number;
    assert(head.len() == 7);
    assert(head[0] == 'e' && head[1] == 'x' && head[2] == 'p' && head[3] == 'i' && head[4] == 'r'
        && head[5] == 'e' && head[6] == '=');
    assert forall|i: int| 0 <= i < value.len() implies #[trigger] value[i] != '?' && value[i]
        != '&' by {
        if i < 7 {
            assert(value[i] == head[i]);
        } else {
            assert(value[i] == number[i - 7]);
        }
    }
}

proof fn lemma_deadline_comes_first(base: Seq<char>, tail: Seq<char>, more: Seq<Seq<char>>)
    requires
        forall|i: int| 0 <= i < base.len() ==> #[trigger] base[i] != '?' && base[i] != '&',
        behind(base, "expire="@) is None,
        split_text(tail, '?', '&').len() >= 1,
        split_text(tail, '?', '&') == seq![split_text(tail, '?', '&')[0]] + more,
        behind(split_text(tail, '?', '&')[0], "expire="@) is Some,
    ensures
        expire_piece(split_text(base, '?', '&'), 0) is None,
        expire_piece(split_text(base.push('?') + tail, '?', '&'), 0) == behind(
            split_text(tail, '?', '&')[0],
            "expire="@,
        ),
{
    lemma_pieces_lie_between_separators(base, tail, '?', '&');
    let alone = seq![base];
    assert(split_text(base, '?', '&') == alone);
    reveal_with_fuel(expire_piece, 2);
    assert(alone[0] == base);
    let all = split_text(base.push('?') + tail, '?', '&');
    assert(all == alone + split_text(tail, '?', '&'));
    assert(all[0] == base);
    assert(all[1] == split_text(tail, '?', '&')[0]);
    lemma_piece_after_others(all, 0, all[1], 1);
}

proof fn lemma_deadline_comes_last(base: Seq<char>, rest: Seq<char>, value: Seq<char>)
    requires
        forall|i: int| 0 <= i < base.len() ==> #[trigger] base[i] != '?' && base[i] != '&',
        behind(base, "expire="@) is None,
        no_deadline(rest),
        split_text(value, '?', '&') == seq![value],
        behind(value, "expire="@) is Some,
    ensures
        expire_piece(split_text(base.push('?') + (rest.push('&') + value), '?', '&'), 0) == behind(
            value,
            "expire="@,
        ),
{
    let tail = rest.push('&') + value;
    lemma_pieces_lie_between_separators(base, tail, '?', '&');
    lemma_pieces_lie_between_separators(rest, value, '?', '&');
    let pieces = split_text(rest, '?', '&');
    let all = split_text(base.push('?') + tail, '?', '&');
    assert(all == seq![base] + (pieces + seq![value]));
    let at = 1 + pieces.len() as int;
    assert(all[at] == value);
    assert forall|k: int| 0 <= k < at implies behind(#[trigger] all[k], "expire="@) is None by {
        if k == 0 {
            assert(all[k] == base);
        } else {
            assert(all[k] == pieces[k - 1]);
        }
    }
    lemma_piece_after_others(all, 0, value, at);
}

/// Whether no piece of a text is a deadline.
pub open spec fn no_deadline(rest: Seq<char>) -> bool {
    forall|k: int|
        0 <= k < split_text(rest, '?', '&').len() ==> behind(
            #[trigger] split_text(rest, '?', '&')[k],
            "expire="@,
        ) is None
}

proof fn lemma_piece_after_others(pieces: Seq<Seq<char>>, from: int, value: Seq<char>, at: int)
    requires
        0 <= from <= at < pieces.len(),
        pieces[at] == value,
        behind(value, "expire="@) is Some,
        forall|k: int|
            from <= k < at ==> behind(#[trigger] pieces[k], "expire="@) is None,
    ensures
        expire_piece(pieces, from) == behind(value, "expire="@),
    decreases at - from,
{
    if from < at {
        assert(behind(pieces[from], "expire="@) is None);
        lemma_piece_after_others(pieces, from + 1, value, at);
    }
}

proof fn lemma_number_has_no_separators(n: nat)
    ensures
        forall|i: int|
            0 <= i < decimal_text(n).len() ==> #[trigger] decimal_text(n)[i] != '?'
                && decimal_text(n)[i] != '&',
    decreases n,
{
    if n >= 10 {
        lemma_number_has_no_separators(n / 10);
        let before = decimal_text(n / 10);
        let s = decimal_text(n);
        assert forall|i: int| 0 <= i < s.len() implies #[trigger] s[i] != '?' && s[i] != '&' by {
            if i < before.len() {
                assert(s[i] == before[i]);
            }
        }
    }
}

/// The stream is the first of the downloads that the tool would make, with
/// its own address, ending and user agent; an answer that names none, or
/// one without an address, cannot be used.
pub proof fn lemma_the_first_download_is_taken(
    provider: Seq<char>,
    value: JsonView,
    list: Seq<JsonView>,
    url: Seq<char>,
)
    ensures
        value.list_field("requested_downloads"@) is None ==> media_of(provider, value) is Err,
        value.list_field("requested_downloads"@) == Some(list) ==> {
            &&& list.len() == 0 ==> media_of(provider, value) is Err
            &&& list.len() > 0 && list[0].text_field("url"@) is None ==> media_of(provider, value)
                is Err
            &&& list.len() > 0 && list[0].text_field("url"@) == Some(url) ==> {
                &&& media_of(provider, value) matches Ok(m)
                &&& m.url == url
                &&& m.expires_at == expiry_of(url)
                &&& m.acodec == list[0].text_field("acodec"@)
                &&& list[0].text_field("ext"@) matches Some(ext) ==> m.ext == ext
                &&& list[0].field("http_headers"@) is None ==> m.user_agent is None
                &&& list[0].field("http_headers"@) matches Some(headers) ==> m.user_agent
                    == headers.text_field("User-Agent"@)
                &&& list[0].field("abr"@) is None ==> m.abr is None
                &&& list[0].field("abr"@) matches Some(JsonView::Number(n)) ==> (n.double
                    matches Some(bits) ==> m.abr == Some(Double { bits }))
            }
        },
        media_of(provider, value) matches Err(e) ==> (e matches ProviderErrorView::Format {
            provider: p,
            ..
        } && p == provider),
{
}

/// The tool's last words that are not blank are the reason of its failure.
/// The demand to sign in is a failure of the session, and anything else one
/// of the tool.
pub proof fn lemma_the_last_words_are_the_reason(
    provider: Seq<char>,
    before: Seq<char>,
    line: Seq<char>,
    blank: Seq<char>,
)
    requires
        forall|i: int| 0 <= i < line.len() ==> #[trigger] line[i] != '\n',
        trimmed(line).len() > 0,
        forall|i: int| 0 <= i < blank.len() ==> #[trigger] blank[i] != '\n',
        trimmed(blank).len() == 0,
    ensures
        failure_reason(before.push('\n') + line) == trimmed(line),
        failure_reason(line) == trimmed(line),
        failure_reason((before.push('\n') + line).push('\n') + blank) == trimmed(line),
        ({
            let text = before.push('\n') + line;
            let signed_out = contains_text(text, "Sign in to confirm"@) || contains_text(
                text,
                "confirm you're not a bot"@,
            );
            failure_of(provider, text) == if signed_out {
                ProviderErrorView::Auth { provider, reason: trimmed(line) }
            } else {
                ProviderErrorView::Tool { tool: "yt-dlp"@, reason: trimmed(line) }
            }
        }),
{
    lemma_pieces_lie_between_separators(line, line, '\n', '\n');
    lemma_pieces_lie_between_separators(blank, line, '\n', '\n');
    lemma_pieces_lie_between_separators(before, line, '\n', '\n');
    let text = before.push('\n') + line;
    lemma_pieces_lie_between_separators(text, blank, '\n', '\n');
    let pieces = split_text(text, '\n', '\n');
    assert(pieces.last() == line);
    assert(last_words(pieces) == Some(trimmed(line)));
    let longer = split_text(text.push('\n') + blank, '\n', '\n');
    assert(longer == pieces + seq![blank]);
    assert(longer.last() == blank);
    assert(longer.drop_last() =~= pieces);
    assert(last_words(longer) == Some(trimmed(line)));
    assert(seq![line].last() == line);
}

/// The tool is asked for one machine-readable answer about the page, with
/// the wished format; every extractor argument has its flag before it, and
/// the cookies are handed over as their source says.
pub proof fn lemma_the_call_holds_what_was_asked(
    req: YtDlpRequest,
    values: Seq<Seq<char>>,
    k: int,
)
    ensures
        ({
            let args = media_arg_texts(req);
            &&& args.last() == req.page_url@
            &&& args.contains("-J"@)
            &&& args[3] == "-f"@ && args[4] == req.format@
            &&& args.subrange(5, (5 + extractor_pairs(texts(req.extractor_args@)).len()) as int)
                == extractor_pairs(texts(req.extractor_args@))
            &&& args.len() == 6 + 2 * req.extractor_args@.len() + (if req.cookies is Some {
                2int
            } else {
                0
            })
            &&& req.cookies matches Some(src) ==> args.subrange(args.len() - 3, args.len() - 1)
                == ytdlp_args_of(src@)
        }),
        extractor_pairs(values).len() == 2 * values.len(),
        0 <= k < values.len() ==> extractor_pairs(values)[2 * k] == "--extractor-args"@
            && extractor_pairs(values)[2 * k + 1] == values[k],
{
    lemma_extractor_pairs(values, k);
    let asked = texts(req.extractor_args@);
    lemma_extractor_pairs(asked, 0);
    let args = media_arg_texts(req);
    assert(args[2] == "-J"@);
    assert(args.subrange(5, (5 + extractor_pairs(asked).len()) as int) =~= extractor_pairs(asked));
    if let Some(src) = req.cookies {
        assert(args.subrange(args.len() - 3, args.len() - 1) =~= ytdlp_args_of(src@));
    }
}

proof fn lemma_extractor_pairs(values: Seq<Seq<char>>, k: int)
    ensures
        extractor_pairs(values).len() == 2 * values.len(),
        0 <= k < values.len() ==> extractor_pairs(values)[2 * k] == "--extractor-args"@
            && extractor_pairs(values)[2 * k + 1] == values[k],
    decreases values.len(),
{
    if values.len() > 0 {
        let rest = values.drop_last();
        lemma_extractor_pairs(rest, k);
        let before = extractor_pairs(rest);
        let all = extractor_pairs(values);
        let pair = seq!["--extractor-args"@, values.last()];
        assert(all == before + pair);
        if 0 <= k < rest.len() {
            assert(all[2 * k] == before[2 * k]);
            assert(all[2 * k + 1] == before[2 * k + 1]);
        } else if k == rest.len() {
            assert(all[2 * k] == pair[0]);
            assert(all[2 * k + 1] == pair[1]);
        }
    }
}

/// A tool that says nothing has no reason to tell; it is called without
/// warnings and chatter, so that nothing but the answer comes back.
pub proof fn lemma_silence_is_told(req: YtDlpRequest)
    ensures
        failure_reason(Seq::empty()) == "нет объяснения в stderr"@,
        media_arg_texts(req)[0] == "--no-warnings"@,
        media_arg_texts(req)[1] == "--quiet"@,
{
    reveal_with_fuel(last_words, 2);
    let pieces = split_text(Seq::empty(), '\n', '\n');
    assert(pieces == seq![Seq::<char>::empty()]);
    assert(pieces.drop_last() =~= Seq::empty());
    assert(trimmed(Seq::empty()) =~= Seq::empty());
    assert(last_words(pieces) is None);
}

} // verus!
