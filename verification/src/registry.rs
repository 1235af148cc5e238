//! Read-side access to a registry of items: profile items (lens manifests),
//! unit items, rule packages and code-list mappings are read **when a
//! registry is configured and reachable**; otherwise the deterministic
//! built-in fixtures serve.
//!
//! The registry owns item lifecycle; a view never claims registry authority
//! it does not have, and always reports which mode served the manifest.
use vstd::prelude::*;
use vstd::string::*;

use crate::http::{encoding_tells_texts_apart, percent_encoded, url_parts, Url};
use crate::json::{json_text, Json, JsonView};
use crate::text::{chars_of, nat_text, number_text, opt_str, opt_text, phrase, text_of};

pub mod subregister;

verus! {

/// The outcome of one registry read.
#[derive(Debug, PartialEq)]
pub enum FetchOutcome {
    /// The registry answered 2xx; the item document is carried.
    Registry(Json),
    /// The registry answered 404: no such item (a live registry's negative
    /// stands).
    Missing,
    /// No registry is configured; fixtures mode.
    Fixtures,
    /// A registry is configured but the request failed; fixtures fallback.
    Unreachable(String),
}

/// What an outcome says.
pub enum OutcomeView {
    Registry(JsonView),
    Missing,
    Fixtures,
    Unreachable(Seq<char>),
}

impl View for FetchOutcome {
    type V = OutcomeView;

    open spec fn view(&self) -> OutcomeView {
        match *self {
            FetchOutcome::Registry(j) => OutcomeView::Registry(j@),
            FetchOutcome::Missing => OutcomeView::Missing,
            FetchOutcome::Fixtures => OutcomeView::Fixtures,
            FetchOutcome::Unreachable(d) => OutcomeView::Unreachable(d@),
        }
    }
}

/// The wire token of an outcome.
pub open spec fn outcome_token(o: OutcomeView) -> Seq<char> {
    match o {
        OutcomeView::Registry(_) => "registry"@,
        OutcomeView::Missing => "missing"@,
        OutcomeView::Fixtures => "fixtures"@,
        OutcomeView::Unreachable(_) => "unreachable"@,
    }
}

impl FetchOutcome {
    /// The wire token.
    pub fn as_str(&self) -> (r: &'static str)
        ensures
            r@ == outcome_token(self@),
    {
        match self {
            FetchOutcome::Registry(_) => "registry",
            FetchOutcome::Missing => "missing",
            FetchOutcome::Fixtures => "fixtures",
            FetchOutcome::Unreachable(_) => "unreachable",
        }
    }

    /// Whether the built-in fixtures serve (`Fixtures` or `Unreachable` — the
    /// distinction is the detail).
    pub fn is_fixture_fallback(&self) -> (r: bool)
        ensures
            r == (self@ is Fixtures || self@ is Unreachable),
    {
        match self {
            FetchOutcome::Fixtures => true,
            FetchOutcome::Unreachable(_) => true,
            _ => false,
        }
    }

    /// The outcome in words.
    pub fn to_text(&self) -> (r: String)
        ensures
            r@ == (match self@ {
                OutcomeView::Unreachable(d) => "unreachable: "@ + d,
                other => outcome_token(other),
            }),
    {
        match self {
            FetchOutcome::Unreachable(d) => {
                let mut out: String = "unreachable: ".to_string();
                out.append(d.as_str());
                out
            },
            other => other.as_str().to_string(),
        }
    }
}

/// What came back of a request.
#[derive(Debug, PartialEq)]
pub enum Reply {
    /// The transport failed, with its reason.
    Failed(String),
    /// The registry answered.
    Answered { status: u16, body: String },
}

/// What a reply to the read of `item_id` means: a 2xx carries the item, a
/// live 404 stands, any other status is an error surfaced verbatim, and a
/// transport failure degrades to `Unreachable`.
pub open spec fn outcome_of(item_id: Seq<char>, reply: Reply) -> Result<OutcomeView, Seq<char>> {
    match reply {
        Reply::Failed(why) => Ok(OutcomeView::Unreachable("registry not reachable: "@ + why@)),
        Reply::Answered { status, body } => if 200 <= status <= 299 {
            match json_text(body@) {
                Ok(item) => Ok(OutcomeView::Registry(item)),
                Err(e) => Err("registry item `"@ + item_id + "` is not valid JSON: "@ + e),
            }
        } else if status == 404 {
            Ok(OutcomeView::Missing)
        } else {
            Err(
                "registry rejected the read of `"@ + item_id + "` ("@ + nat_text(status as nat)
                    + "): "@ + body@,
            )
        },
    }
}

/// `s` without its trailing slashes.
pub open spec fn without_slashes(s: Seq<char>) -> Seq<char>
    decreases s.len(),
{
    if s.len() > 0 && s.last() == '/' {
        without_slashes(s.drop_last())
    } else {
        s
    }
}

fn trim_slashes(s: &str) -> (r: String)
    ensures
        r@ == without_slashes(s@),
{
    let chars: Vec<char> = chars_of(s);
    let mut n: usize = chars.len();
    assert(s@.take(n as int) =~= s@);
    while n > 0 && chars[n - 1] == '/'
        invariant
            n <= chars.len(),
            chars@ == s@,
            without_slashes(s@) == without_slashes(s@.take(n as int)),
        decreases n,
    {
        assert(s@.take(n as int).drop_last() =~= s@.take(n - 1));
        n = n - 1;
    }
    assert(s@.subrange(0, n as int) =~= s@.take(n as int));
    text_of(&chars, 0, n)
}

/// The address of an item: the registry root, the subregister, the item's id
/// as a path segment, and the instant where one is asked for.
pub open spec fn item_address(
    base: Seq<char>,
    subregister: Seq<char>,
    item_id: Seq<char>,
    at: Option<Seq<char>>,
) -> Seq<char> {
    let path = without_slashes(base) + "/"@ + subregister + "/"@ + percent_encoded(item_id);
    match at {
        Some(t) => path + "?at="@ + percent_encoded(t),
        None => path,
    }
}

/// The registry reader.
#[derive(Debug)]
pub struct RegistryClient {
    base: Option<String>,
    bearer: Option<String>,
}

impl RegistryClient {
    /// The registry root, where one is configured.
    pub closed spec fn root(self) -> Option<Seq<char>> {
        opt_text(self.base)
    }

    /// The bearer token, where one is configured.
    pub closed spec fn token(self) -> Option<Seq<char>> {
        opt_text(self.bearer)
    }

    /// `base` is the registry root (e.g. `http://127.0.0.1:8090`); `None`
    /// disables fetching (fixtures mode).
    pub fn new(base: Option<String>, bearer: Option<String>) -> (r: RegistryClient)
        ensures
            r.root() == opt_text(base),
            r.token() == opt_text(bearer),
    {
        RegistryClient { base, bearer }
    }

    /// The configured registry root, when one is.
    pub fn base(&self) -> (r: Option<&str>)
        ensures
            opt_str(r) == self.root(),
    {
        match &self.base {
            Some(b) => Some(b.as_str()),
            None => None,
        }
    }

    /// The bearer token sent to the registry.
    pub fn bearer(&self) -> (r: Option<&str>)
        ensures
            opt_str(r) == self.token(),
    {
        match &self.bearer {
            Some(b) => Some(b.as_str()),
            None => None,
        }
    }

    /// Where to read an item, point-in-time when `at` is given; nowhere when
    /// no registry is configured.
    pub fn item_url(&self, subregister: &str, item_id: &str, at: Option<&str>) -> (r: Option<
        String,
    >)
        ensures
            opt_text(r) == (match self.root() {
                Some(base) => Some(item_address(base, subregister@, item_id@, opt_str(at))),
                None => None,
            }),
    {
        match &self.base {
            None => None,
            Some(base) => {
                let mut url: String = trim_slashes(base.as_str());
                url.append("/");
                url.append(subregister);
                url.append("/");
                url.append(Url::encode_path_segment(item_id).as_str());
                match at {
                    Some(t) => {
                        url.append("?at=");
                        url.append(Url::encode_query_component(t).as_str());
                    },
                    None => {},
                }
                Some(url)
            },
        }
    }

    /// The URL to read an item at, point-in-time when `at` is given; none when
    /// no registry is configured, an error when the address is no URL.
    pub fn item_request(&self, subregister: &str, item_id: &str, at: Option<&str>) -> (r: Result<
        Option<Url>,
        String,
    >)
        ensures
            match self.root() {
                None => r is Ok && r->Ok_0 is None,
                Some(base) => {
                    let address = item_address(base, subregister@, item_id@, opt_str(at));
                    match url_parts(address) {
                        Ok(parts) => r is Ok && r->Ok_0 is Some && (r->Ok_0->0.authority@
                            == parts.0 && r->Ok_0->0.target@ == parts.1),
                        Err(e) => r is Err && r->Err_0@ == "bad registry URL `"@ + address + "`: "@
                            + e,
                    }
                },
            },
    {
        match self.item_url(subregister, item_id, at) {
            None => Ok(None),
            Some(address) => match Url::parse(address.as_str()) {
                Ok(url) => Ok(Some(url)),
                Err(e) => {
                    let mut why: String = phrase("bad registry URL `", address.as_str(), "`: ");
                    why.append(e.as_str());
                    Err(why)
                },
            },
        }
    }

    /// What the read of an item came to: fixtures mode without a registry,
    /// else what the reply means.
    pub fn outcome(&self, item_id: &str, reply: &Reply) -> (r: Result<FetchOutcome, String>)
        ensures
            match self.root() {
                None => r is Ok && r->Ok_0@ is Fixtures,
                Some(_) => match r {
                    Ok(o) => outcome_of(item_id@, *reply) == Ok::<OutcomeView, Seq<char>>(o@),
                    Err(e) => outcome_of(item_id@, *reply) == Err::<OutcomeView, Seq<char>>(e@),
                },
            },
    {
        if self.base.is_none() {
            return Ok(FetchOutcome::Fixtures);
        }
        match reply {
            Reply::Failed(why) => {
                let mut detail: String = "registry not reachable: ".to_string();
                detail.append(why.as_str());
                Ok(FetchOutcome::Unreachable(detail))
            },
            Reply::Answered { status, body } => {
                if 200 <= *status && *status <= 299 {
                    match Json::parse(body.as_str()) {
                        Ok(item) => Ok(FetchOutcome::Registry(item)),
                        Err(e) => {
                            let mut why: String = phrase(
                                "registry item `",
                                item_id,
                                "` is not valid JSON: ",
                            );
                            why.append(e.as_str());
                            Err(why)
                        },
                    }
                } else if *status == 404 {
                    Ok(FetchOutcome::Missing)
                } else {
                    let mut why: String = phrase(
                        "registry rejected the read of `",
                        item_id,
                        "` (",
                    );
                    why.append(number_text(*status as u128).as_str());
                    why.append("): ");
                    why.append(body.as_str());
                    Err(why)
                }
            },
        }
    }
}

/// The fixtures never stand in for a live answer: where the registry
/// answered, the outcome is the item, its absence, or an error.
pub proof fn live_answers_are_not_papered_over(item_id: Seq<char>, status: u16, body: String)
    ensures
        ({
            let o = outcome_of(item_id, Reply::Answered { status, body });
            o is Ok ==> !(o->Ok_0 is Fixtures) && !(o->Ok_0 is Unreachable)
        }),
{
}

/// Slashes at the end of the registry root make no difference: they are
/// taken off, all of them and nothing else.
pub proof fn trailing_slashes_are_taken_off(base: Seq<char>, slashes: Seq<char>)
    requires
        base.len() > 0 ==> base.last() != '/',
        forall|i: int| 0 <= i < slashes.len() ==> #[trigger] slashes[i] == '/',
    ensures
        without_slashes(base + slashes) == base,
    decreases slashes.len(),
{
    let s = base + slashes;
    if slashes.len() == 0 {
        assert(s =~= base);
    } else {
        assert(s.last() == slashes[slashes.len() - 1]);
        assert(s.drop_last() =~= base + slashes.drop_last());
        trailing_slashes_are_taken_off(base, slashes.drop_last());
    }
}

/// The address of an item: behind the root without its slashes stand the
/// subregister and the encoded id, and an instant only where one is asked
/// for.
pub proof fn addresses_name_the_item(
    base: Seq<char>,
    slashes: Seq<char>,
    subregister: Seq<char>,
    item_id: Seq<char>,
    t: Seq<char>,
)
    requires
        base.len() > 0 ==> base.last() != '/',
        forall|i: int| 0 <= i < slashes.len() ==> #[trigger] slashes[i] == '/',
    ensures
        item_address(base + slashes, subregister, item_id, None) == base + "/"@ + subregister + "/"@
            + percent_encoded(item_id),
        item_address(base + slashes, subregister, item_id, Some(t)) == item_address(
            base,
            subregister,
            item_id,
            None,
        ) + ("?at="@ + percent_encoded(t)),
{
    trailing_slashes_are_taken_off(base, slashes);
    trailing_slashes_are_taken_off(base, Seq::empty());
    assert(base + Seq::<char>::empty() =~= base);
    let path = base + "/"@ + subregister + "/"@ + percent_encoded(item_id);
    assert(path + "?at="@ + percent_encoded(t) =~= path + ("?at="@ + percent_encoded(t)));
}

/// Different items have different addresses.
pub proof fn addresses_tell_items_apart(
    base: Seq<char>,
    subregister: Seq<char>,
    a: Seq<char>,
    b: Seq<char>,
)
    requires
        item_address(base, subregister, a, None) == item_address(base, subregister, b, None),
    ensures
        a == b,
{
    let head = without_slashes(base) + "/"@ + subregister + "/"@;
    let (x, y) = (percent_encoded(a), percent_encoded(b));
    assert((head + x).skip(head.len() as int) =~= x);
    assert((head + y).skip(head.len() as int) =~= y);
    encoding_tells_texts_apart(a, b);
}

/// What an answer means: only a status from 200 to 299 carries an item, the
/// one that the body writes, and only 404 is a live negative; any other
/// status is refused, with the status and the body in the reason, and so is
/// an item that is no document.
pub proof fn answers_are_read_by_their_status(item_id: Seq<char>, status: u16, body: String)
    ensures
        ({
            let o = outcome_of(item_id, Reply::Answered { status, body });
            &&& o is Ok && o->Ok_0 is Missing <==> status == 404
            &&& o is Ok && o->Ok_0 is Registry <==> status / 100 == 2 && json_text(body@) is Ok
            &&& o is Ok && o->Ok_0 is Registry ==> json_text(body@) == Ok::<JsonView, Seq<char>>(
                o->Ok_0->Registry_0,
            )
            &&& status / 100 != 2 && status != 404 ==> (o matches Err(e) && e
                == "registry rejected the read of `"@ + item_id + "` ("@ + nat_text(status as nat)
                + "): "@ + body@)
            &&& status / 100 == 2 && json_text(body@) is Err ==> o is Err
        }),
{
}

/// A transport failure is no answer: the registry was not reachable, for
/// the reason that the transport gave.
pub proof fn failures_are_unreachable(item_id: Seq<char>, why: String)
    ensures
        outcome_of(item_id, Reply::Failed(why)) matches Ok(OutcomeView::Unreachable(d)) && d
            == "registry not reachable: "@ + why@,
{
}

} // verus!
