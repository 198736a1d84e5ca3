//! Connections to a node agent: addresses, error texts and the exchange of one
//! request for one reply.
use crate::json;
use crate::json::{Doc, Json, Number};
use crate::text;
use vstd::prelude::*;

verus! {

/// Default TCP port of the node agent.
pub const DEFAULT_AGENT_PORT: u16 = 8787;

/// The WebSocket address of a target, before a token is appended.
pub open spec fn base_url(target: Seq<char>) -> Seq<char> {
    let base = if text::begins(target, "ws://"@) || text::begins(target, "wss://"@) {
        target
    } else if target.contains(':') {
        "ws://"@ + target
    } else {
        "ws://"@ + target + ":"@ + text::decimal(DEFAULT_AGENT_PORT as nat)
    };
    if text::ends(base, "/"@) {
        base
    } else {
        base + "/"@
    }
}

/// The WebSocket address of a target.
pub open spec fn url_of(target: Seq<char>, token: Option<Seq<char>>) -> Seq<char> {
    match token {
        Some(t) => if t.len() > 0 {
            base_url(target) + "?token="@ + t
        } else {
            base_url(target)
        },
        None => base_url(target),
    }
}

/// An optional text as characters.
pub open spec fn chars(value: Option<&str>) -> Option<Seq<char>> {
    match value {
        Some(s) => Some(s@),
        None => None,
    }
}

/// Builds the WebSocket URL for one configured target.
pub fn agent_url(target: &str, token: Option<&str>) -> (r: String)
    ensures
        r@ == url_of(target@, chars(token)),
{
    let mut base = if text::starts_with(target, "ws://") || text::starts_with(target, "wss://") {
        text::copy(target)
    } else if text::contains_char(target, ':') {
        text::cat2("ws://", target)
    } else {
        let port = text::from_u64(DEFAULT_AGENT_PORT as u64);
        text::cat4("ws://", target, ":", port.as_str())
    };
    if !text::ends_with(base.as_str(), "/") {
        base.append("/");
    }
    match token {
        Some(t) => {
            if text::is_empty(t) {
                base
            } else {
                text::cat3(base.as_str(), "?token=", t)
            }
        },
        None => base,
    }
}

/// Without a token an address always ends in a slash.
pub proof fn addresses_end_in_a_slash(target: Seq<char>)
    ensures
        text::ends(base_url(target), "/"@),
{
    let base = if text::begins(target, "ws://"@) || text::begins(target, "wss://"@) {
        target
    } else if target.contains(':') {
        "ws://"@ + target
    } else {
        "ws://"@ + target + ":"@ + text::decimal(DEFAULT_AGENT_PORT as nat)
    };
    let closed = base + "/"@;
    assert(closed.skip(closed.len() - "/"@.len()) =~= "/"@);
}

/// An error text without its technical prefix, cut for display.
pub open spec fn brief(message: Seq<char>) -> Seq<char> {
    let trimmed = text::trimmed(message);
    let plain = if text::begins(trimmed, "IO error: "@) {
        trimmed.skip("IO error: "@.len() as int)
    } else if text::begins(trimmed, "Url error: "@) {
        trimmed.skip("Url error: "@.len() as int)
    } else {
        trimmed
    };
    text::shortened(plain, 90)
}

/// Short, human readable connection error for the popup.
pub fn short_error(message: &str) -> (r: String)
    ensures
        r@ == brief(message@),
{
    let trimmed = text::trim(message);
    let plain = match text::strip_prefix(trimmed.as_str(), "IO error: ") {
        Some(rest) => rest,
        None => match text::strip_prefix(trimmed.as_str(), "Url error: ") {
            Some(rest) => rest,
            None => trimmed,
        },
    };
    text::shorten(plain.as_str(), 90)
}

// ---------------------------------------------------------------- one exchange

/// What came of waiting on the socket.
#[derive(Debug)]
pub enum SocketEvent {
    Text(String),
    Closed,
    Other,
    Failed(String),
    /// The time for the reply is over.
    Expired,
}

/// A result as characters.
pub open spec fn result_of(r: Result<String, String>) -> Result<Seq<char>, Seq<char>> {
    match r {
        Ok(s) => Ok(s@),
        Err(s) => Err(s@),
    }
}

/// An optional result as characters.
pub open spec fn answer_of(r: Option<Result<String, String>>) -> Option<
    Result<Seq<char>, Seq<char>>,
> {
    match r {
        Some(r) => Some(result_of(r)),
        None => None,
    }
}

/// What a socket event other than text means for a request.
pub open spec fn ending(event: SocketEvent, expired: Seq<char>) -> Option<
    Result<Seq<char>, Seq<char>>,
> {
    match event {
        SocketEvent::Text(_) => None,
        SocketEvent::Closed => Some(Err("Verbindung geschlossen"@)),
        SocketEvent::Other => None,
        SocketEvent::Failed(message) => Some(Err(brief(message@))),
        SocketEvent::Expired => Some(Err(expired)),
    }
}

fn end_of(event: &SocketEvent, expired: &str) -> (r: Option<Result<String, String>>)
    ensures
        answer_of(r) == ending(*event, expired@),
{
    match event {
        SocketEvent::Text(_) => None,
        SocketEvent::Closed => Some(Err(text::copy("Verbindung geschlossen"))),
        SocketEvent::Other => None,
        SocketEvent::Failed(message) => Some(Err(short_error(message.as_str()))),
        SocketEvent::Expired => Some(Err(text::copy(expired))),
    }
}

/// The document that an agent pushes on connect: the first text.
pub open spec fn fetched(event: SocketEvent) -> Option<Result<Seq<char>, Seq<char>>> {
    match event {
        SocketEvent::Text(t) => Some(Ok(t@)),
        other => ending(other, "Zeitüberschreitung"@),
    }
}

/// Waits for the document that an agent pushes; nothing means to go on reading.
pub fn fetch_step(event: &SocketEvent) -> (r: Option<Result<String, String>>)
    ensures
        answer_of(r) == fetched(*event),
{
    match event {
        SocketEvent::Text(t) => Some(Ok(text::copy(t.as_str()))),
        _ => end_of(event, "Zeitüberschreitung"),
    }
}

/// Whether a document is the reply to an action. The agent keeps pushing its
/// snapshots; only the document with the matching action belongs to a request.
pub open spec fn is_reply(doc: Doc, action: Seq<char>) -> bool {
    json::text_of(json::member(doc, "action"@)) == Some(action)
}

pub fn is_answer(value: &Json, action: &str) -> (r: bool)
    ensures
        r == is_reply(value@, action@),
{
    match json::as_text(value.get("action")) {
        Some(s) => text::same(s.as_str(), action),
        None => false,
    }
}

/// The reply to a request, or nothing while it has not come.
pub open spec fn replied(event: SocketEvent, action: Seq<char>) -> Option<
    Result<Seq<char>, Seq<char>>,
> {
    match event {
        SocketEvent::Text(t) => match json::json_text(t@) {
            Some(doc) => if is_reply(doc, action) {
                Some(Ok(t@))
            } else {
                None
            },
            None => None,
        },
        other => ending(other, "Zeitüberschreitung"@),
    }
}

/// Waits for the reply with the matching action; nothing means to go on
/// reading.
pub fn request_step(event: &SocketEvent, action: &str) -> (r: Option<Result<String, String>>)
    ensures
        answer_of(r) == replied(*event, action@),
{
    match event {
        SocketEvent::Text(t) => match json::parse(t.as_str()) {
            Ok(value) => {
                if is_answer(&value, action) {
                    Some(Ok(text::copy(t.as_str())))
                } else {
                    None
                }
            },
            Err(_) => None,
        },
        _ => end_of(event, "Zeitüberschreitung"),
    }
}

// ---------------------------------------------------------------- loading a model

/// The request to load a model.
pub open spec fn load_request_doc(port: u16, model: Seq<char>) -> Doc {
    Doc::Object(
        seq![
            ("action"@, Doc::Text("load_model"@)),
            ("model"@, Doc::Text(model)),
            ("port"@, Doc::Number(Number::Natural(port as u64))),
        ],
    )
}

proof fn lemma_load_request(port: u16, model: Seq<char>)
    ensures
        json::rising(load_request_doc(port, model)->Object_0),
        json::whole(load_request_doc(port, model)),
        json::canonical(load_request_doc(port, model)),
        json::depth(load_request_doc(port, model)) < 128,
{
    reveal_strlit("action");
    reveal_strlit("model");
    reveal_strlit("port");
    let m = load_request_doc(port, model)->Object_0;
    assert(text::before("action"@, "model"@));
    assert(text::before("action"@, "port"@));
    assert(text::before("model"@, "port"@));
    json::lemma_flat(m);
}

/// The text of a request to load a model. The agent reads it back as it is.
pub fn load_request(port: u16, model: &str) -> (r: String)
    ensures
        r@ == json::json_rendered(load_request_doc(port, model@)),
        json::json_text(r@) == Some(load_request_doc(port, model@)),
{
    let members = json::no_members();
    let members = json::with(members, "action", Json::Text(text::copy("load_model")));
    let members = json::with(members, "model", Json::Text(text::copy(model)));
    let members = json::with(members, "port", Json::Number(Number::Natural(port as u64)));
    let value = json::object(members);
    proof {
        assert(value@->Object_0 =~= load_request_doc(port, model@)->Object_0);
        lemma_load_request(port, model@);
    }
    json::render(&value)
}

/// What a reply to `load_model` says.
pub open spec fn loaded(doc: Doc, model: Seq<char>) -> Result<Seq<char>, Seq<char>> {
    if json::holds(json::member(doc, "ok"@)) {
        let names = match json::items_of(json::member(doc, "loaded"@)) {
            Some(items) => text::joined(json::texts(items), ", "@),
            None => Seq::empty(),
        };
        if names.len() == 0 {
            Ok(model + " geladen"@)
        } else {
            Ok(model + " geladen (aktiv: "@ + names + ")"@)
        }
    } else {
        Err(
            json::text_or(
                json::member(doc, "error"@),
                "der Agent hat das Laden abgelehnt"@,
            ),
        )
    }
}

pub fn read_loaded(value: &Json, model: &str) -> (r: Result<String, String>)
    ensures
        result_of(r) == loaded(value@, model@),
{
    if json::member_holds(value, "ok") {
        let names = match json::as_array(value.get("loaded")) {
            Some(items) => {
                let list = json::text_items(items);
                text::join(&list, ", ")
            },
            None => String::new(),
        };
        assert(json::items_of(json::member(value@, "loaded"@)) is None ==> names@ =~= Seq::empty());
        if text::is_empty(names.as_str()) {
            Ok(text::cat2(model, " geladen"))
        } else {
            Ok(text::cat4(model, " geladen (aktiv: ", names.as_str(), ")"))
        }
    } else {
        Err(json::member_text(value, "error", "der Agent hat das Laden abgelehnt"))
    }
}

/// What an event means while a model is being loaded.
pub open spec fn load_answer(event: SocketEvent, model: Seq<char>) -> Option<
    Result<Seq<char>, Seq<char>>,
> {
    match event {
        SocketEvent::Text(t) => match json::json_text(t@) {
            Some(doc) => if is_reply(doc, "load_model"@) {
                Some(loaded(doc, model))
            } else {
                None
            },
            None => None,
        },
        other => ending(other, "Zeitüberschreitung beim Laden"@),
    }
}

/// Waits for the reply to `load_model`; nothing means to go on reading.
pub fn load_step(event: &SocketEvent, model: &str) -> (r: Option<Result<String, String>>)
    ensures
        answer_of(r) == load_answer(*event, model@),
{
    match event {
        SocketEvent::Text(t) => match json::parse(t.as_str()) {
            Ok(value) => {
                if is_answer(&value, "load_model") {
                    Some(read_loaded(&value, model))
                } else {
                    None
                }
            },
            Err(_) => None,
        },
        _ => end_of(event, "Zeitüberschreitung beim Laden"),
    }
}

/// Progress of one model load, read by the popup.
#[derive(Debug)]
pub struct LoadState {
    pub running: bool,
    pub message: String,
    pub failed: bool,
}

/// The progress as characters.
pub struct Loading {
    pub running: bool,
    pub message: Seq<char>,
    pub failed: bool,
}

impl View for LoadState {
    type V = Loading;

    open spec fn view(&self) -> Loading {
        Loading { running: self.running, message: self.message@, failed: self.failed }
    }
}

impl LoadState {
    pub fn copy(&self) -> (r: LoadState)
        ensures
            r@ == self@,
    {
        LoadState {
            running: self.running,
            message: text::copy(self.message.as_str()),
            failed: self.failed,
        }
    }
}

/// One model load.
#[derive(Debug)]
pub struct ModelLoader {
    state: LoadState,
}

impl View for ModelLoader {
    type V = Loading;

    closed spec fn view(&self) -> Loading {
        self.state@
    }
}

/// How a load ended.
pub open spec fn load_ended(result: Result<Seq<char>, Seq<char>>) -> Loading {
    match result {
        Ok(message) => Loading { running: false, message, failed: false },
        Err(error) => Loading {
            running: false,
            message: "Fehlgeschlagen: "@ + error,
            failed: true,
        },
    }
}

impl ModelLoader {
    /// A load that has just begun.
    pub fn start(model: &str) -> (r: ModelLoader)
        ensures
            r@ == (Loading { running: true, message: "Lade "@ + model@ + " …"@, failed: false }),
    {
        ModelLoader {
            state: LoadState {
                running: true,
                message: text::cat3("Lade ", model, " …"),
                failed: false,
            },
        }
    }

    /// The load ended.
    pub fn finish(&mut self, result: Result<String, String>)
        ensures
            final(self)@ == load_ended(result_of(result)),
    {
        self.state = match result {
            Ok(message) => LoadState { running: false, message, failed: false },
            Err(error) => LoadState {
                running: false,
                message: text::cat2("Fehlgeschlagen: ", error.as_str()),
                failed: true,
            },
        };
    }

    pub fn snapshot(&self) -> (r: LoadState)
        ensures
            r@ == self@,
    {
        self.state.copy()
    }
}

/// Snapshots that an agent pushes while a request runs never end the request:
/// they carry no action.
pub proof fn pushed_snapshots_are_skipped(event: SocketEvent, doc: Doc, model: Seq<char>)
    requires
        event matches SocketEvent::Text(t) && json::json_text(t@) == Some(doc),
        json::text_of(json::member(doc, "action"@)) is None,
    ensures
        forall|action: Seq<char>| #[trigger] replied(event, action) is None,
        load_answer(event, model) is None,
{
}

/// A target without a port gets the agent's port, one with a port keeps it, and
/// an address is taken as it is; the token follows where there is one.
pub proof fn targets_become_addresses(host: Seq<char>, rest: Seq<char>, token: Seq<char>)
    requires
        host.len() > 0,
        !host.contains(':'),
        !host.contains('/'),
        !rest.contains('/'),
        !text::begins(host.push(':') + rest, "ws://"@),
        !text::begins(host.push(':') + rest, "wss://"@),
    ensures
        url_of(host, None) == "ws://"@ + host + ":8787/"@,
        url_of(host.push(':') + rest, None) == "ws://"@ + (host.push(':') + rest) + "/"@,
        url_of("ws://"@ + host, None) == "ws://"@ + host + "/"@,
        token.len() > 0 ==> url_of(host, Some(token)) == "ws://"@ + host + ":8787/?token="@ + token,
        url_of(host, Some(Seq::empty())) == url_of(host, None),
{
    reveal_strlit("ws://");
    reveal_strlit("wss://");
    reveal_strlit(":");
    reveal_strlit("/");
    reveal_strlit("?token=");
    reveal_strlit(":8787/");
    reveal_strlit(":8787/?token=");
    lemma_port();
    assert("/"@[0] == '/');
    if text::begins(host, "ws://"@) {
        assert(host.take(5)[2] == ':');
        assert(host.contains(host[2]));
    }
    if text::begins(host, "wss://"@) {
        assert(host.take(6)[3] == ':');
        assert(host.contains(host[3]));
    }
    let plain = "ws://"@ + host + ":"@ + text::decimal(8787);
    assert(plain.last() == '7');
    if text::ends(plain, "/"@) {
        assert(plain.skip(plain.len() - 1)[0] == plain.last());
    }
    assert(plain + "/"@ =~= "ws://"@ + host + ":8787/"@);
    let given = host.push(':') + rest;
    assert(given[host.len() as int] == ':');
    assert(given.contains(':'));
    let full = "ws://"@ + given;
    if text::ends(full, "/"@) {
        assert(full.skip(full.len() - 1)[0] == full.last());
        if rest.len() > 0 {
            assert(full.last() == rest.last());
            assert(rest.contains(rest[rest.len() - 1]));
        } else {
            assert(full.last() == ':');
        }
    }
    let address = "ws://"@ + host;
    assert(address.take(5) =~= "ws://"@);
    assert(address.last() == host.last());
    assert(host.contains(host[host.len() - 1]));
    if text::ends(address, "/"@) {
        assert(address.skip(address.len() - 1)[0] == address.last());
    }
    assert("ws://"@ + host + ":8787/"@ + "?token="@ + token =~= "ws://"@ + host + ":8787/?token="@
        + token);
}

proof fn lemma_port()
    ensures
        text::decimal(8787) == seq!['8', '7', '8', '7'],
{
    reveal_with_fuel(text::digits, 5);
    assert(text::digits(8, 10) =~= seq!['8']);
    assert(text::digits(87, 10) =~= seq!['8', '7']);
    assert(text::digits(878, 10) =~= seq!['8', '7', '8']);
    assert(text::digits(8787, 10) =~= seq!['8', '7', '8', '7']);
}

/// The first text is the document of a fetch; a closed connection, a failure and
/// the end of the time end it with an error, and anything else is waited out.
pub proof fn fetches_take_the_first_text(t: String, message: String)
    ensures
        fetched(SocketEvent::Text(t)) == Some(Ok::<Seq<char>, Seq<char>>(t@)),
        fetched(SocketEvent::Closed) == Some(Err::<Seq<char>, Seq<char>>("Verbindung geschlossen"@)),
        fetched(SocketEvent::Expired) == Some(Err::<Seq<char>, Seq<char>>("Zeitüberschreitung"@)),
        fetched(SocketEvent::Failed(message)) == Some(Err::<Seq<char>, Seq<char>>(brief(message@))),
        fetched(SocketEvent::Other) is None,
{
}

/// The reply to a request is the document that names its action; other documents
/// and what is no document are waited out, and the connection can end it.
pub proof fn replies_name_their_action(t: String, message: String, action: Seq<char>)
    ensures
        json::json_text(t@) matches Some(doc) ==> {
            &&& json::member(doc, "action"@) == Some(Doc::Text(action)) ==> replied(
                SocketEvent::Text(t),
                action,
            ) == Some(Ok::<Seq<char>, Seq<char>>(t@))
            &&& json::member(doc, "action"@) != Some(Doc::Text(action)) ==> replied(
                SocketEvent::Text(t),
                action,
            ) is None
        },
        json::json_text(t@) is None ==> replied(SocketEvent::Text(t), action) is None,
        replied(SocketEvent::Closed, action) == Some(
            Err::<Seq<char>, Seq<char>>("Verbindung geschlossen"@),
        ),
        replied(SocketEvent::Expired, action) == Some(
            Err::<Seq<char>, Seq<char>>("Zeitüberschreitung"@),
        ),
        replied(SocketEvent::Failed(message), action) == Some(
            Err::<Seq<char>, Seq<char>>(brief(message@)),
        ),
        replied(SocketEvent::Other, action) is None,
        load_answer(SocketEvent::Expired, action) == Some(
            Err::<Seq<char>, Seq<char>>("Zeitüberschreitung beim Laden"@),
        ),
        load_answer(SocketEvent::Closed, action) == Some(
            Err::<Seq<char>, Seq<char>>("Verbindung geschlossen"@),
        ),
{
}

/// A model was loaded exactly where the reply is `ok`; the message names it, and
/// the models in memory where the reply lists some.
pub proof fn loads_are_told(doc: Doc, model: Seq<char>)
    ensures
        loaded(doc, model) is Ok <==> json::member(doc, "ok"@) == Some(Doc::Bool(true)),
        loaded(doc, model) matches Ok(s) ==> text::begins(s, model + " geladen"@),
        loaded(doc, model) matches Ok(s) ==> (json::member(doc, "loaded"@) is None ==> s == model
            + " geladen"@),
        loaded(doc, model) matches Ok(s) ==> (json::member(doc, "loaded"@) matches Some(
            Doc::Array(items),
        ) ==> (text::joined(json::texts(items), ", "@).len() > 0 ==> s == model
            + " geladen (aktiv: "@ + text::joined(json::texts(items), ", "@) + ")"@)),
        loaded(doc, model) matches Err(e) ==> (json::member(doc, "error"@) matches Some(
            Doc::Text(s),
        ) ==> e == s),
{
    reveal_strlit(" geladen");
    reveal_strlit(" geladen (aktiv: ");
    if let Ok(s) = loaded(doc, model) {
        let head = model + " geladen"@;
        assert(s.take(head.len() as int) =~= head);
    }
}

/// A load that is over is not running, and it failed exactly where there is an
/// error, which the message tells.
pub proof fn loads_end(result: Result<Seq<char>, Seq<char>>)
    ensures
        !load_ended(result).running,
        load_ended(result).failed <==> result is Err,
        result matches Ok(m) ==> load_ended(result).message == m,
        result matches Err(e) ==> load_ended(result).message == "Fehlgeschlagen: "@ + e,
{
}

/// An error is shown without its technical prefix.
pub proof fn errors_are_brief(message: Seq<char>)
    requires
        message == text::trimmed(message),
        0 < message.len() <= 90,
        !text::begins(message, "IO error: "@),
        !text::begins(message, "Url error: "@),
    ensures
        brief(message) == message,
        brief("IO error: "@ + message) == message,
        brief("Url error: "@ + message) == message,
{
    reveal_strlit("IO error: ");
    reveal_strlit("Url error: ");
    text::trimmed_texts_are_bare(message);
    let none = Seq::<char>::empty();
    let io = "IO error: "@ + message;
    let url = "Url error: "@ + message;
    assert(io.last() == message.last() && url.last() == message.last());
    assert(io[0] == 'I' && url[0] == 'U');
    assert(!text::is_white('I') && !text::is_white('U'));
    assert(none + io + none =~= io);
    assert(none + url + none =~= url);
    text::trimming_drops_the_whitespace(none, io, none);
    text::trimming_drops_the_whitespace(none, url, none);
    assert(io.take(10) =~= "IO error: "@);
    assert(io.skip(10) =~= message);
    assert(url.take(11) =~= "Url error: "@);
    assert(url.skip(11) =~= message);
    assert(url.take(10)[0] == 'U');
    assert("IO error: "@[0] == 'I');
}

/// What is longer than 90 characters is cut there, with an ellipsis.
pub proof fn long_errors_are_cut(message: Seq<char>)
    ensures
        brief(message).len() <= 91,
        brief(message).len() == 91 ==> brief(message).last() == '…',
{
}

/// The request to load a model names the action, the model and the port.
pub proof fn load_requests_name_the_model(port: u16, model: Seq<char>)
    ensures
        json::member(load_request_doc(port, model), "action"@) == Some(Doc::Text("load_model"@)),
        json::member(load_request_doc(port, model), "model"@) == Some(Doc::Text(model)),
        json::member(load_request_doc(port, model), "port"@) == Some(
            Doc::Number(Number::Natural(port as u64)),
        ),
{
    reveal_strlit("action");
    reveal_strlit("model");
    reveal_strlit("port");
    assert("action"@[0] == 'a' && "model"@[0] == 'm' && "port"@[0] == 'p');
    reveal_with_fuel(json::lookup, 4);
    let m = load_request_doc(port, model)->Object_0;
    assert(m.drop_first()[0] == m[1]);
    assert(m.drop_first().drop_first()[0] == m[2]);
}

} // verus!
