use vstd::prelude::*;

verus! {

/// One header: a name and its value.
#[derive(Debug)]
pub struct Header {
    pub name: String,
    pub value: String,
}

impl View for Header {
    type V = (Seq<char>, Seq<char>);

    open spec fn view(&self) -> (Seq<char>, Seq<char>) {
        (self.name@, self.value@)
    }
}

impl Clone for Header {
    fn clone(&self) -> (r: Self)
        ensures
            r@ == self@,
    {
        Header { name: self.name.clone(), value: self.value.clone() }
    }
}

/// The model of a header list: its (name, value) pairs in order.
pub open spec fn headers_view(h: Seq<Header>) -> Seq<(Seq<char>, Seq<char>)> {
    h.map_values(|x: Header| x@)
}

/// The model of an optional header list.
pub open spec fn opt_headers_view(h: Option<Vec<Header>>) -> Option<Seq<(Seq<char>, Seq<char>)>> {
    match h {
        None => None,
        Some(v) => Some(headers_view(v@)),
    }
}

/// The model of an optional text.
pub open spec fn opt_text_view(t: Option<String>) -> Option<Seq<char>> {
    match t {
        None => None,
        Some(v) => Some(v@),
    }
}

/// A copy of a list of headers.
pub fn clone_headers(h: &Vec<Header>) -> (r: Vec<Header>)
    ensures
        headers_view(r@) == headers_view(h@),
{
    let r = h.clone();
    assert(headers_view(r@) =~= headers_view(h@));
    r
}

/// A copy of an optional list of headers.
pub fn clone_opt_headers(h: &Option<Vec<Header>>) -> (r: Option<Vec<Header>>)
    ensures
        opt_headers_view(r) == opt_headers_view(*h),
{
    match h {
        None => None,
        Some(v) => Some(clone_headers(v)),
    }
}

/// A copy of an optional text.
pub fn clone_opt_text(t: &Option<String>) -> (r: Option<String>)
    ensures
        r == *t,
{
    match t {
        None => None,
        Some(v) => Some(v.clone()),
    }
}

/// An HTTP endpoint that receives the record's payload.
#[derive(Debug)]
pub struct HttpDestination {
    pub url: String,
    pub headers: Option<Vec<Header>>,
    pub method: Option<String>,
}

/// A queue that receives the record's payload as a message.
#[derive(Debug)]
pub struct SqsDestination {
    pub queue_url: String,
}

/// A topic to which the record's payload is published.
#[derive(Debug)]
pub struct SnsDestination {
    pub topic_arn: String,
}

/// Where one record is delivered.
#[derive(Debug)]
pub enum OutboxDestination {
    SqsDestination(SqsDestination),
    SnsDestination(SnsDestination),
    HttpDestination(HttpDestination),
}

/// The model of a destination.
pub ghost enum DestinationView {
    Queue { queue_url: Seq<char> },
    Topic { topic_arn: Seq<char> },
    Http {
        url: Seq<char>,
        headers: Option<Seq<(Seq<char>, Seq<char>)>>,
        method: Option<Seq<char>>,
    },
}

impl View for OutboxDestination {
    type V = DestinationView;

    open spec fn view(&self) -> DestinationView {
        match self {
            OutboxDestination::SqsDestination(d) => DestinationView::Queue { queue_url: d.queue_url@ },
            OutboxDestination::SnsDestination(d) => DestinationView::Topic { topic_arn: d.topic_arn@ },
            OutboxDestination::HttpDestination(d) => DestinationView::Http {
                url: d.url@,
                headers: opt_headers_view(d.headers),
                method: opt_text_view(d.method),
            },
        }
    }
}

impl Clone for OutboxDestination {
    fn clone(&self) -> (r: Self)
        ensures
            r@ == self@,
    {
        match self {
            OutboxDestination::SqsDestination(d) => OutboxDestination::SqsDestination(
                SqsDestination { queue_url: d.queue_url.clone() },
            ),
            OutboxDestination::SnsDestination(d) => OutboxDestination::SnsDestination(
                SnsDestination { topic_arn: d.topic_arn.clone() },
            ),
            OutboxDestination::HttpDestination(d) => OutboxDestination::HttpDestination(
                HttpDestination {
                    url: d.url.clone(),
                    headers: clone_opt_headers(&d.headers),
                    method: clone_opt_text(&d.method),
                },
            ),
        }
    }
}

/// The model of a destination list.
pub open spec fn destinations_view(d: Seq<OutboxDestination>) -> Seq<DestinationView> {
    d.map_values(|x: OutboxDestination| x@)
}

/// A copy of a list of destinations.
pub fn clone_destinations(d: &Vec<OutboxDestination>) -> (r: Vec<OutboxDestination>)
    ensures
        destinations_view(r@) == destinations_view(d@),
{
    let r = d.clone();
    assert(destinations_view(r@) =~= destinations_view(d@));
    r
}

/// The request method of an HTTP delivery.
#[derive(Debug, Clone, Copy, PartialEq, Eq, Structural)]
pub enum HttpMethod {
    Post,
    Put,
    Patch,
}

/// What `str::to_uppercase` returns for a text.
pub uninterp spec fn upper_of(s: Seq<char>) -> Seq<char>;

/// Relies on `str::to_uppercase`: the result depends on the characters alone.
#[verifier::external_body]
fn to_upper(s: &str) -> (r: String)
    ensures
        r@ == upper_of(s@),
{
    s.to_uppercase()
}

/// The method named by an upper-cased method text; anything but PUT and PATCH
/// is POST.
pub open spec fn method_named(upper: Seq<char>) -> HttpMethod {
    if upper == seq!['P', 'U', 'T'] {
        HttpMethod::Put
    } else if upper == seq!['P', 'A', 'T', 'C', 'H'] {
        HttpMethod::Patch
    } else {
        HttpMethod::Post
    }
}

/// The method that a destination's optional method text selects.
pub open spec fn method_of(method: Option<Seq<char>>) -> HttpMethod {
    match method {
        None => HttpMethod::Post,
        Some(m) => method_named(upper_of(m)),
    }
}

/// Character-wise equality of two texts.
pub fn same_text(a: &str, b: &str) -> (r: bool)
    ensures
        r == (a@ == b@),
{
    let n = a.unicode_len();
    if n != b.unicode_len() {
        return false;
    }
    let mut i: usize = 0;
    while i < n
        invariant
            n == a@.len(),
            n == b@.len(),
            0 <= i <= n,
            forall|j: int| 0 <= j < i ==> a@[j] == b@[j],
        decreases n - i,
    {
        if a.get_char(i) != b.get_char(i) {
            return false;
        }
        i = i + 1;
    }
    assert(a@ =~= b@);
    true
}

impl HttpMethod {
    /// The method for an upper-cased method text.
    pub fn from_upper(upper: &str) -> (r: HttpMethod)
        ensures
            r == method_named(upper@),
    {
        proof {
            reveal_strlit("PUT");
            reveal_strlit("PATCH");
            assert("PUT"@ =~= seq!['P', 'U', 'T']);
            assert("PATCH"@ =~= seq!['P', 'A', 'T', 'C', 'H']);
        }
        if same_text(upper, "PUT") {
            HttpMethod::Put
        } else if same_text(upper, "PATCH") {
            HttpMethod::Patch
        } else {
            HttpMethod::Post
        }
    }

    /// The method of a destination: its text upper-cased, POST when absent.
    pub fn resolve(method: &Option<String>) -> (r: HttpMethod)
        ensures
            r == method_of(
                match method {
                    None => None,
                    Some(m) => Some(m@),
                },
            ),
    {
        match method {
            None => HttpMethod::Post,
            Some(m) => {
                let upper = to_upper(m.as_str());
                HttpMethod::from_upper(upper.as_str())
            },
        }
    }
}

} // verus!
