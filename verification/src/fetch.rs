//! The fetch protocol of one tile: where it is cached, which URL it is
//! requested from, and what to do after each answer of the cache and of the
//! server. The protocol only decides; reading, requesting, sleeping and
//! writing are done by whoever drives it.

use vstd::prelude::*;
use vstd::string::StringExecFns;
use crate::decode::decode_image;
use crate::decode::image_rgba8;
use crate::errors::FetchError;
use crate::source::TileRequestClient;
use crate::source::TileType;
use crate::text::contains;
use crate::text::decimal;
use crate::text::occurs_in;
use crate::text::push_decimal;

verus! {

/// Seconds to wait after the server has answered 429.
pub const RATE_LIMIT_BACKOFF_SECONDS: u64 = 5;

/// Seconds after which a request is given up.
pub const REQUEST_TIMEOUT_SECONDS: u64 = 5;

/// Status of an answer that carries the tile.
pub const HTTP_OK: u16 = 200;

/// Status of an answer that asks to come back later.
pub const HTTP_TOO_MANY_REQUESTS: u16 = 429;

/// The extension of a cached tile's file name.
pub open spec fn extension_of(kind: TileType) -> Seq<char> {
    match kind {
        TileType::Raster => "png"@,
        TileType::Vector => "pbf"@,
    }
}

/// The directory in which the tiles of a source are cached.
pub open spec fn cache_dir_of(root: Seq<char>, source: Seq<char>) -> Seq<char> {
    root + "/"@ + source
}

/// The file in which a tile is cached: `{root}/{source}/{zoom}_{x}_{y}.{ext}`.
pub open spec fn cache_file_of(
    root: Seq<char>,
    source: Seq<char>,
    kind: TileType,
    x: nat,
    y: nat,
    zoom: nat,
) -> Seq<char> {
    cache_dir_of(root, source) + "/"@ + decimal(zoom) + "_"@ + decimal(x) + "_"@ + decimal(y)
        + "."@ + extension_of(kind)
}

/// The URL from which a tile is requested: `{source}/{zoom}/{x}/{y}.{ext}`,
/// or `{source}&x={x}&y={y}&z={zoom}` for a source whose URL holds `google`.
pub open spec fn request_url_of(source: Seq<char>, kind: TileType, x: nat, y: nat, zoom: nat) -> Seq<
    char,
> {
    if occurs_in("google"@, source) {
        source + "&x="@ + decimal(x) + "&y="@ + decimal(y) + "&z="@ + decimal(zoom)
    } else {
        source + "/"@ + decimal(zoom) + "/"@ + decimal(x) + "/"@ + decimal(y) + "."@
            + extension_of(kind)
    }
}

/// The zoom level at which a vector tile is drawn: the tile's own, as far as
/// it fits 32 bits.
pub open spec fn draw_zoom_of(zoom: u64) -> u32 {
    if zoom > u32::MAX {
        u32::MAX
    } else {
        zoom as u32
    }
}

/// The extension of a cached tile's file name.
pub fn extension(kind: TileType) -> (ext: &'static str)
    ensures
        ext@ == extension_of(kind),
{
    match kind {
        TileType::Raster => "png",
        TileType::Vector => "pbf",
    }
}

/// Builds the name of the directory in which the tiles of a source are cached.
pub fn cache_dir_path(root: &str, source: &str) -> (dir: String)
    ensures
        dir@ == cache_dir_of(root@, source@),
{
    let mut dir = String::from_str(root);
    dir.append("/");
    dir.append(source);
    dir
}

/// Builds the name of the file in which a tile is cached.
pub fn cache_file_path(root: &str, source: &str, kind: TileType, x: u64, y: u64, zoom: u64) -> (file:
    String)
    ensures
        file@ == cache_file_of(root@, source@, kind, x as nat, y as nat, zoom as nat),
{
    let mut file = cache_dir_path(root, source);
    file.append("/");
    push_decimal(&mut file, zoom);
    file.append("_");
    push_decimal(&mut file, x);
    file.append("_");
    push_decimal(&mut file, y);
    file.append(".");
    file.append(extension(kind));
    file
}

/// Builds the URL from which a tile is requested.
pub fn request_url(source: &str, kind: TileType, x: u64, y: u64, zoom: u64) -> (url: String)
    ensures
        url@ == request_url_of(source@, kind, x as nat, y as nat, zoom as nat),
{
    let mut url = String::from_str(source);
    if contains(source, "google") {
        url.append("&x=");
        push_decimal(&mut url, x);
        url.append("&y=");
        push_decimal(&mut url, y);
        url.append("&z=");
        push_decimal(&mut url, zoom);
    } else {
        url.append("/");
        push_decimal(&mut url, zoom);
        url.append("/");
        push_decimal(&mut url, x);
        url.append("/");
        push_decimal(&mut url, y);
        url.append(".");
        url.append(extension(kind));
    }
    url
}

/// All that the fetch of one tile needs to know.
#[derive(Debug, Clone, PartialEq, Eq)]
pub struct FetchPlan {
    /// The URL of the source the tile comes from.
    pub source: String,
    /// What the source delivers.
    pub kind: TileType,
    /// The directory of the cache file.
    pub cache_dir: String,
    /// The file that holds the tile once it has been fetched.
    pub cache_file: String,
    /// The URL to request the tile from.
    pub request_url: String,
    /// The zoom level at which a vector tile is drawn, for whoever draws
    /// the bytes that the fetch delivers.
    pub draw_zoom: u32,
}

/// A fetch plan as a mathematical value.
pub struct FetchPlanView {
    pub source: Seq<char>,
    pub kind: TileType,
    pub cache_dir: Seq<char>,
    pub cache_file: Seq<char>,
    pub request_url: Seq<char>,
    pub draw_zoom: u32,
}

impl View for FetchPlan {
    type V = FetchPlanView;

    open spec fn view(&self) -> FetchPlanView {
        FetchPlanView {
            source: self.source@,
            kind: self.kind,
            cache_dir: self.cache_dir@,
            cache_file: self.cache_file@,
            request_url: self.request_url@,
            draw_zoom: self.draw_zoom,
        }
    }
}

/// The plan for tile `(x, y)` at `zoom` of a source cached under `root`.
pub open spec fn plan_for(
    root: Seq<char>,
    source: Seq<char>,
    kind: TileType,
    x: u64,
    y: u64,
    zoom: u64,
) -> FetchPlanView {
    FetchPlanView {
        source,
        kind,
        cache_dir: cache_dir_of(root, source),
        cache_file: cache_file_of(root, source, kind, x as nat, y as nat, zoom as nat),
        request_url: request_url_of(source, kind, x as nat, y as nat, zoom as nat),
        draw_zoom: draw_zoom_of(zoom),
    }
}

impl TileRequestClient {
    /// Plans the fetch of tile `(x, y)` at `zoom` from the enabled source.
    /// Without an enabled source there is nothing to fetch from.
    pub fn plan_tile(&self, x: u64, y: u64, zoom: u64) -> (plan: Option<FetchPlan>)
        requires
            self.wf(),
        ensures
            match plan {
                Some(p) => self@.dom().contains(p.source@) && self@[p.source@] == (true, p.kind)
                    && p@ == plan_for(self.cache_root(), p.source@, p.kind, x, y, zoom),
                None => forall|u: Seq<char>| self@.dom().contains(u) ==> !(#[trigger] self@[u]).0,
            },
    {
        match self.get_enabled_tile_web_origins() {
            Some((source, (_, kind))) => {
                let cache_dir = cache_dir_path(self.cache_dir(), source.as_str());
                let cache_file = cache_file_path(self.cache_dir(), source.as_str(), kind, x, y, zoom);
                let request_url = request_url(source.as_str(), kind, x, y, zoom);
                let draw_zoom: u32 = if zoom > 0xffff_ffff {
                    0xffff_ffff
                } else {
                    zoom as u32
                };
                Some(FetchPlan { source, kind, cache_dir, cache_file, request_url, draw_zoom })
            },
            None => None,
        }
    }
}

/// What a fetch delivers.
#[derive(Debug, Clone, PartialEq, Eq)]
pub enum TilePayload {
    /// The RGBA pixels of a raster tile, decoded.
    Pixels(Vec<u8>),
    /// The bytes of a vector tile as they came; they are decoded where the
    /// tile is drawn.
    VectorBytes(Vec<u8>),
}

/// What a fetch delivers, as a mathematical value.
pub enum TilePayloadView {
    Pixels(Seq<u8>),
    VectorBytes(Seq<u8>),
}

impl View for TilePayload {
    type V = TilePayloadView;

    open spec fn view(&self) -> TilePayloadView {
        match self {
            TilePayload::Pixels(pixels) => TilePayloadView::Pixels(pixels@),
            TilePayload::VectorBytes(bytes) => TilePayloadView::VectorBytes(bytes@),
        }
    }
}

/// The outcome of a fetch as a mathematical value.
pub open spec fn outcome_view(outcome: Result<TilePayload, FetchError>) -> Result<
    TilePayloadView,
    FetchError,
> {
    match outcome {
        Ok(payload) => Ok(payload@),
        Err(e) => Err(e),
    }
}

/// What the bytes of a tile are delivered as: the decoded pixels of a raster
/// tile, or a decode failure where they do not decode; the bytes of a
/// vector tile, unchanged.
pub open spec fn decoded_payload(kind: TileType, bytes: Seq<u8>) -> Result<
    TilePayloadView,
    FetchError,
> {
    match kind {
        TileType::Raster => match image_rgba8(bytes) {
            Some(pixels) => Ok(TilePayloadView::Pixels(pixels)),
            None => Err(FetchError::DecodeFailure),
        },
        TileType::Vector => Ok(TilePayloadView::VectorBytes(bytes)),
    }
}

/// Turns the bytes of a tile into what the fetch delivers: a raster tile is
/// decoded, a vector tile is passed on as it came.
pub fn decode_payload(kind: TileType, bytes: Vec<u8>) -> (outcome: Result<TilePayload, FetchError>)
    ensures
        outcome_view(outcome) == decoded_payload(kind, bytes@),
{
    match kind {
        TileType::Raster => match decode_image(&bytes) {
            Ok(pixels) => Ok(TilePayload::Pixels(pixels)),
            Err(e) => Err(e),
        },
        TileType::Vector => Ok(TilePayload::VectorBytes(bytes)),
    }
}

/// Makes a copy of a run of bytes.
fn copy_bytes(bytes: &Vec<u8>) -> (copy: Vec<u8>)
    ensures
        copy@ == bytes@,
{
    let mut copy: Vec<u8> = Vec::new();
    let mut i: usize = 0;
    while i < bytes.len()
        invariant
            i <= bytes@.len(),
            copy@ == bytes@.take(i as int),
        decreases bytes@.len() - i,
    {
        copy.push(bytes[i]);
        assert(bytes@.take(i + 1) =~= bytes@.take(i as int).push(bytes@[i as int]));
        i = i + 1;
    }
    assert(bytes@.take(bytes@.len() as int) =~= bytes@);
    copy
}

/// Where the fetch of a tile stands.
#[derive(Debug, Clone, Copy, PartialEq, Eq, Structural)]
pub enum FetchState {
    /// Nothing has been asked yet.
    Start,
    /// The cache has been asked for the tile.
    AwaitCache,
    /// The server has been asked for the tile.
    AwaitResponse,
    /// The server has asked to come back later.
    AwaitBackoff,
    /// The outcome has been delivered.
    Done,
}

/// What has happened since the last step.
#[derive(Debug, Clone, PartialEq, Eq)]
pub enum FetchEvent {
    /// The fetch begins.
    Begin,
    /// The cache holds the tile: these are its bytes.
    CacheHit(Vec<u8>),
    /// The cache does not hold the tile.
    CacheMiss,
    /// The server has answered with this status and body.
    Response(u16, Vec<u8>),
    /// The request has failed without an answer.
    TransportFailed,
    /// The wait after a 429 is over.
    BackoffElapsed,
}

/// What is to be done next.
#[derive(Debug, PartialEq, Eq)]
pub enum FetchAction {
    /// Look for this file in the cache.
    ReadCache(String),
    /// Request this URL.
    Get(String),
    /// Wait for this many seconds.
    Sleep(u64),
    /// Create the directory, write the bytes to the file, then hand out the
    /// outcome. A failure to write does not change the outcome.
    StoreAndDeliver { dir: String, file: String, bytes: Vec<u8>, outcome: Result<TilePayload, FetchError> },
    /// Hand out the outcome.
    Deliver(Result<TilePayload, FetchError>),
    /// The event does not belong to the state: nothing is to be done.
    Nothing,
}

/// An event as a mathematical value.
pub enum FetchEventView {
    Begin,
    CacheHit(Seq<u8>),
    CacheMiss,
    Response(u16, Seq<u8>),
    TransportFailed,
    BackoffElapsed,
}

/// An action as a mathematical value.
pub enum FetchActionView {
    ReadCache(Seq<char>),
    Get(Seq<char>),
    Sleep(u64),
    StoreAndDeliver {
        dir: Seq<char>,
        file: Seq<char>,
        bytes: Seq<u8>,
        outcome: Result<TilePayloadView, FetchError>,
    },
    Deliver(Result<TilePayloadView, FetchError>),
    Nothing,
}

impl View for FetchEvent {
    type V = FetchEventView;

    open spec fn view(&self) -> FetchEventView {
        match self {
            FetchEvent::Begin => FetchEventView::Begin,
            FetchEvent::CacheHit(bytes) => FetchEventView::CacheHit(bytes@),
            FetchEvent::CacheMiss => FetchEventView::CacheMiss,
            FetchEvent::Response(status, body) => FetchEventView::Response(*status, body@),
            FetchEvent::TransportFailed => FetchEventView::TransportFailed,
            FetchEvent::BackoffElapsed => FetchEventView::BackoffElapsed,
        }
    }
}

impl View for FetchAction {
    type V = FetchActionView;

    open spec fn view(&self) -> FetchActionView {
        match self {
            FetchAction::ReadCache(file) => FetchActionView::ReadCache(file@),
            FetchAction::Get(url) => FetchActionView::Get(url@),
            FetchAction::Sleep(seconds) => FetchActionView::Sleep(*seconds),
            FetchAction::StoreAndDeliver { dir, file, bytes, outcome } => FetchActionView::StoreAndDeliver {
                dir: dir@,
                file: file@,
                bytes: bytes@,
                outcome: outcome_view(*outcome),
            },
            FetchAction::Deliver(outcome) => FetchActionView::Deliver(outcome_view(*outcome)),
            FetchAction::Nothing => FetchActionView::Nothing,
        }
    }
}

/// The protocol: the state after an event and the action it asks for.
///
/// The cache is asked first. A tile found there is delivered without any
/// request. Otherwise the server is asked: an answer of 200 is stored under
/// the tile's cache file and delivered, an answer of 429 is followed by a
/// wait and the same request again, as often as it comes; any other answer
/// and a failed request end the fetch with an error. What is delivered of a
/// raster tile are its decoded pixels; a vector tile is delivered as the
/// bytes that came, and is decoded where it is drawn.
pub open spec fn fetch_step(plan: FetchPlanView, state: FetchState, event: FetchEventView) -> (
    FetchState,
    FetchActionView,
) {
    match (state, event) {
        (FetchState::Start, FetchEventView::Begin) => (
            FetchState::AwaitCache,
            FetchActionView::ReadCache(plan.cache_file),
        ),
        (FetchState::AwaitCache, FetchEventView::CacheHit(bytes)) => (
            FetchState::Done,
            FetchActionView::Deliver(decoded_payload(plan.kind, bytes)),
        ),
        (FetchState::AwaitCache, FetchEventView::CacheMiss) => (
            FetchState::AwaitResponse,
            FetchActionView::Get(plan.request_url),
        ),
        (FetchState::AwaitResponse, FetchEventView::Response(status, body)) => if status
            == HTTP_OK {
            (
                FetchState::Done,
                FetchActionView::StoreAndDeliver {
                    dir: plan.cache_dir,
                    file: plan.cache_file,
                    bytes: body,
                    outcome: decoded_payload(plan.kind, body),
                },
            )
        } else if status == HTTP_TOO_MANY_REQUESTS {
            (FetchState::AwaitBackoff, FetchActionView::Sleep(RATE_LIMIT_BACKOFF_SECONDS))
        } else {
            (FetchState::Done, FetchActionView::Deliver(Err(FetchError::HttpStatus(status))))
        },
        (FetchState::AwaitResponse, FetchEventView::TransportFailed) => (
            FetchState::Done,
            FetchActionView::Deliver(Err(FetchError::NetworkFailure)),
        ),
        (FetchState::AwaitBackoff, FetchEventView::BackoffElapsed) => (
            FetchState::AwaitResponse,
            FetchActionView::Get(plan.request_url),
        ),
        _ => (state, FetchActionView::Nothing),
    }
}

impl FetchPlan {
    /// Takes one step of the protocol: given the state and what has happened,
    /// returns the next state and what to do.
    pub fn step(&self, state: FetchState, event: FetchEvent) -> (next: (FetchState, FetchAction))
        ensures
            (next.0, next.1@) == fetch_step(self@, state, event@),
    {
        match (state, event) {
            (FetchState::Start, FetchEvent::Begin) => (
                FetchState::AwaitCache,
                FetchAction::ReadCache(self.cache_file.clone()),
            ),
            (FetchState::AwaitCache, FetchEvent::CacheHit(bytes)) => (
                FetchState::Done,
                FetchAction::Deliver(decode_payload(self.kind, bytes)),
            ),
            (FetchState::AwaitCache, FetchEvent::CacheMiss) => (
                FetchState::AwaitResponse,
                FetchAction::Get(self.request_url.clone()),
            ),
            (FetchState::AwaitResponse, FetchEvent::Response(status, body)) => {
                if status == HTTP_OK {
                    let stored = copy_bytes(&body);
                    let outcome = decode_payload(self.kind, body);
                    (
                        FetchState::Done,
                        FetchAction::StoreAndDeliver {
                            dir: self.cache_dir.clone(),
                            file: self.cache_file.clone(),
                            bytes: stored,
                            outcome,
                        },
                    )
                } else if status == HTTP_TOO_MANY_REQUESTS {
                    (FetchState::AwaitBackoff, FetchAction::Sleep(RATE_LIMIT_BACKOFF_SECONDS))
                } else {
                    (FetchState::Done, FetchAction::Deliver(Err(FetchError::HttpStatus(status))))
                }
            },
            (FetchState::AwaitResponse, FetchEvent::TransportFailed) => (
                FetchState::Done,
                FetchAction::Deliver(Err(FetchError::NetworkFailure)),
            ),
            (FetchState::AwaitBackoff, FetchEvent::BackoffElapsed) => (
                FetchState::AwaitResponse,
                FetchAction::Get(self.request_url.clone()),
            ),
            (state, _) => (state, FetchAction::Nothing),
        }
    }
}

/// What the server answers to one request: a status and a body, or nothing
/// when the request fails.
pub type Answer = Option<(u16, Seq<u8>)>;

/// The course of a fetch: what it delivered, if it came to an end, what the
/// cache holds afterwards, and how many requests and waits it took.
pub struct FetchRun {
    pub outcome: Option<Result<TilePayloadView, FetchError>>,
    pub cache: Map<Seq<char>, Seq<u8>>,
    pub requests: nat,
    pub sleeps: nat,
}

/// The event with which the cache answers a look-up.
pub open spec fn cache_event(cache: Map<Seq<char>, Seq<u8>>, file: Seq<char>) -> FetchEventView {
    if cache.dom().contains(file) {
        FetchEventView::CacheHit(cache[file])
    } else {
        FetchEventView::CacheMiss
    }
}

/// The event that an answer of the server is.
pub open spec fn answer_event(answer: Answer) -> FetchEventView {
    match answer {
        Some((status, body)) => FetchEventView::Response(status, body),
        None => FetchEventView::TransportFailed,
    }
}

/// The course that a fetch takes from `state` and `event` on when every
/// action of the protocol is carried out faithfully: a look-up reads the
/// cache, a request is answered by the next of `answers`, a wait passes, and
/// a store writes the cache. The course ends without an outcome where the
/// answers or the `steps` allowed run out.
pub open spec fn driven(
    plan: FetchPlanView,
    state: FetchState,
    event: FetchEventView,
    cache: Map<Seq<char>, Seq<u8>>,
    answers: Seq<Answer>,
    steps: nat,
) -> FetchRun
    decreases steps,
{
    let stalled = FetchRun { outcome: None, cache, requests: 0, sleeps: 0 };
    if steps == 0 {
        stalled
    } else {
        let (next, action) = fetch_step(plan, state, event);
        match action {
            FetchActionView::ReadCache(file) => driven(
                plan,
                next,
                cache_event(cache, file),
                cache,
                answers,
                (steps - 1) as nat,
            ),
            FetchActionView::Get(_) => if answers.len() == 0 {
                FetchRun { requests: 1, ..stalled }
            } else {
                let rest = driven(
                    plan,
                    next,
                    answer_event(answers[0]),
                    cache,
                    answers.drop_first(),
                    (steps - 1) as nat,
                );
                FetchRun { requests: rest.requests + 1, ..rest }
            },
            FetchActionView::Sleep(_) => {
                let rest = driven(
                    plan,
                    next,
                    FetchEventView::BackoffElapsed,
                    cache,
                    answers,
                    (steps - 1) as nat,
                );
                FetchRun { sleeps: rest.sleeps + 1, ..rest }
            },
            FetchActionView::StoreAndDeliver { dir, file, bytes, outcome } => FetchRun {
                outcome: Some(outcome),
                cache: cache.insert(file, bytes),
                requests: 0,
                sleeps: 0,
            },
            FetchActionView::Deliver(outcome) => FetchRun {
                outcome: Some(outcome),
                cache,
                requests: 0,
                sleeps: 0,
            },
            FetchActionView::Nothing => stalled,
        }
    }
}

/// The course of a whole fetch, from its beginning.
pub open spec fn fetched(
    plan: FetchPlanView,
    cache: Map<Seq<char>, Seq<u8>>,
    answers: Seq<Answer>,
    steps: nat,
) -> FetchRun {
    driven(plan, FetchState::Start, FetchEventView::Begin, cache, answers, steps)
}

/// A fetch that finds its tile in the cache delivers the tile at once: no
/// request, no wait, and the cache as it was.
pub proof fn lemma_fetch_from_cache(
    plan: FetchPlanView,
    cache: Map<Seq<char>, Seq<u8>>,
    answers: Seq<Answer>,
    steps: nat,
)
    requires
        cache.dom().contains(plan.cache_file),
        steps >= 2,
    ensures
        fetched(plan, cache, answers, steps) == (FetchRun {
            outcome: Some(decoded_payload(plan.kind, cache[plan.cache_file])),
            cache,
            requests: 0,
            sleeps: 0,
        }),
{
    reveal_with_fuel(driven, 3);
}

/// A fetch touches no file of the cache but its own, and what it leaves in
/// that file, where the file was not there before, are the bytes of what it
/// delivered.
proof fn lemma_driven_cache(
    plan: FetchPlanView,
    state: FetchState,
    event: FetchEventView,
    cache: Map<Seq<char>, Seq<u8>>,
    answers: Seq<Answer>,
    steps: nat,
)
    requires
        !cache.dom().contains(plan.cache_file),
        state != FetchState::AwaitCache || event == FetchEventView::CacheMiss,
    ensures
        ({
            let run = driven(plan, state, event, cache, answers, steps);
            if run.cache.dom().contains(plan.cache_file) {
                &&& run.cache == cache.insert(plan.cache_file, run.cache[plan.cache_file])
                &&& run.outcome == Some(
                    decoded_payload(plan.kind, run.cache[plan.cache_file]),
                )
            } else {
                run.cache == cache
            }
        }),
    decreases steps,
{
    if steps > 0 {
        let (next, action) = fetch_step(plan, state, event);
        match action {
            FetchActionView::ReadCache(file) => {
                lemma_driven_cache(
                    plan,
                    next,
                    cache_event(cache, file),
                    cache,
                    answers,
                    (steps - 1) as nat,
                );
            },
            FetchActionView::Get(_) => {
                if answers.len() > 0 {
                    lemma_driven_cache(
                        plan,
                        next,
                        answer_event(answers[0]),
                        cache,
                        answers.drop_first(),
                        (steps - 1) as nat,
                    );
                }
            },
            FetchActionView::Sleep(_) => {
                lemma_driven_cache(
                    plan,
                    next,
                    FetchEventView::BackoffElapsed,
                    cache,
                    answers,
                    (steps - 1) as nat,
                );
            },
            _ => {},
        }
    }
}

/// A tile is requested once at most. A fetch that does not find the tile in
/// the cache and leaves it there has stored the body that it delivered; every
/// later fetch of the tile, whatever the server would answer, is served from
/// the cache alone: it makes no request, does not wait, leaves the cache as
/// it is, and delivers what the first fetch delivered.
pub proof fn lemma_second_fetch_served_from_cache(
    plan: FetchPlanView,
    cache: Map<Seq<char>, Seq<u8>>,
    answers: Seq<Answer>,
    steps: nat,
    later_answers: Seq<Answer>,
    later_steps: nat,
)
    requires
        !cache.dom().contains(plan.cache_file),
        fetched(plan, cache, answers, steps).cache.dom().contains(plan.cache_file),
        later_steps >= 2,
    ensures
        fetched(plan, fetched(plan, cache, answers, steps).cache, later_answers, later_steps) == (
        FetchRun { requests: 0, sleeps: 0, ..fetched(plan, cache, answers, steps) }),
{
    lemma_driven_cache(plan, FetchState::Start, FetchEventView::Begin, cache, answers, steps);
    lemma_fetch_from_cache(
        plan,
        fetched(plan, cache, answers, steps).cache,
        later_answers,
        later_steps,
    );
}

/// The answers of a server that answers 429 `rounds` times and then `last`.
pub open spec fn rate_limited(rounds: nat, last: Answer) -> Seq<Answer>
    decreases rounds,
{
    if rounds == 0 {
        seq![last]
    } else {
        seq![Some((HTTP_TOO_MANY_REQUESTS, Seq::<u8>::empty()))] + rate_limited(
            (rounds - 1) as nat,
            last,
        )
    }
}

proof fn lemma_rate_limited_requests(
    plan: FetchPlanView,
    cache: Map<Seq<char>, Seq<u8>>,
    rounds: nat,
    body: Seq<u8>,
    steps: nat,
)
    requires
        steps >= 2 * rounds + 2,
    ensures
        driven(
            plan,
            FetchState::AwaitCache,
            FetchEventView::CacheMiss,
            cache,
            rate_limited(rounds, Some((HTTP_OK, body))),
            steps,
        ) == (FetchRun {
            outcome: Some(decoded_payload(plan.kind, body)),
            cache: cache.insert(plan.cache_file, body),
            requests: rounds + 1,
            sleeps: rounds,
        }),
        driven(
            plan,
            FetchState::AwaitBackoff,
            FetchEventView::BackoffElapsed,
            cache,
            rate_limited(rounds, Some((HTTP_OK, body))),
            steps,
        ) == (FetchRun {
            outcome: Some(decoded_payload(plan.kind, body)),
            cache: cache.insert(plan.cache_file, body),
            requests: rounds + 1,
            sleeps: rounds,
        }),
    decreases rounds,
{
    let answers = rate_limited(rounds, Some((HTTP_OK, body)));
    reveal_with_fuel(driven, 3);
    if rounds == 0 {
        assert(answers[0] == Some((HTTP_OK, body)));
    } else {
        let rest = rate_limited((rounds - 1) as nat, Some((HTTP_OK, body)));
        assert(answers[0] == Some((HTTP_TOO_MANY_REQUESTS, Seq::<u8>::empty())));
        assert(answers.drop_first() =~= rest);
        lemma_rate_limited_requests(plan, cache, (rounds - 1) as nat, body, (steps - 2) as nat);
    }
}

/// A rate limit is waited out, however long it lasts. When the tile is not
/// in the cache and the server answers 429 `rounds` times and then 200, the
/// fetch makes `rounds + 1` requests, waits exactly `rounds` times, stores
/// the body of the last answer and delivers it.
pub proof fn lemma_rate_limit_waited_out(
    plan: FetchPlanView,
    cache: Map<Seq<char>, Seq<u8>>,
    rounds: nat,
    body: Seq<u8>,
    steps: nat,
)
    requires
        !cache.dom().contains(plan.cache_file),
        steps >= 2 * rounds + 3,
    ensures
        fetched(plan, cache, rate_limited(rounds, Some((HTTP_OK, body))), steps) == (FetchRun {
            outcome: Some(decoded_payload(plan.kind, body)),
            cache: cache.insert(plan.cache_file, body),
            requests: rounds + 1,
            sleeps: rounds,
        }),
{
    reveal_with_fuel(driven, 2);
    lemma_rate_limited_requests(plan, cache, rounds, body, (steps - 1) as nat);
}

} // verus!
