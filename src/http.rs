use vstd::prelude::*;

verus! {

/// How a request is answered, decided by its request line.
#[derive(Clone, Copy, Debug, PartialEq, Eq, Structural)]
pub enum Route {
    /// `GET /`: the index page.
    Home,
    /// `GET /sleep`: the index page, after a pause.
    SlowHome,
    /// Anything else: the not-found page.
    Missing,
}

/// `s` begins with `p`.
pub open spec fn starts_with(s: Seq<u8>, p: Seq<u8>) -> bool {
    p.len() <= s.len() && s.subrange(0, p.len() as int) == p
}

/// `GET / HTTP/1.1\r\n`
pub open spec fn home_line() -> Seq<u8> {
    seq![71u8, 69, 84, 32, 47, 32, 72, 84, 84, 80, 47, 49, 46, 49, 13, 10]
}

/// `GET /sleep HTTP/1.1\r\n`
pub open spec fn sleep_line() -> Seq<u8> {
    seq![71u8, 69, 84, 32, 47, 115, 108, 101, 101, 112, 32, 72, 84, 84, 80, 47, 49, 46, 49, 13, 10]
}

/// `HTTP/1.1 200 OK`
pub open spec fn ok_status() -> Seq<u8> {
    seq![72u8, 84, 84, 80, 47, 49, 46, 49, 32, 50, 48, 48, 32, 79, 75]
}

/// `HTTP/1.1 404 NOT FOUND`
pub open spec fn not_found_status() -> Seq<u8> {
    seq![
        72u8, 84, 84, 80, 47, 49, 46, 49, 32, 52, 48, 52, 32, 78, 79, 84, 32, 70, 79, 85, 78, 68,
    ]
}

/// `\r\nContent-Length: `
pub open spec fn length_header() -> Seq<u8> {
    seq![
        13u8, 10, 67, 111, 110, 116, 101, 110, 116, 45, 76, 101, 110, 103, 116, 104, 58, 32,
    ]
}

/// `\r\n\r\n`
pub open spec fn blank_line() -> Seq<u8> {
    seq![13u8, 10, 13, 10]
}

/// The decimal digits of `n`, most significant first, in ASCII.
pub open spec fn decimal(n: nat) -> Seq<u8>
    decreases n,
{
    if n < 10 {
        seq![(48 + n) as u8]
    } else {
        decimal(n / 10).push((48 + n % 10) as u8)
    }
}

/// The route that answers a request beginning with `request`.
pub open spec fn route_of(request: Seq<u8>) -> Route {
    if starts_with(request, home_line()) {
        Route::Home
    } else if starts_with(request, sleep_line()) {
        Route::SlowHome
    } else {
        Route::Missing
    }
}

/// A response: status line, a `Content-Length` header, a blank line, then
/// the body.
pub open spec fn response_of(status: Seq<u8>, body: Seq<u8>) -> Seq<u8> {
    status + length_header() + decimal(body.len()) + blank_line() + body
}

fn has_prefix(s: &[u8], p: &Vec<u8>) -> (r: bool)
    ensures
        r == starts_with(s@, p@),
{
    if p.len() > s.len() {
        return false;
    }
    let mut i: usize = 0;
    while i < p.len()
        invariant
            p@.len() <= s@.len(),
            i <= p@.len(),
            forall|j: int| 0 <= j < i ==> s@[j] == p@[j],
        decreases p@.len() - i,
    {
        if s[i] != p[i] {
            assert(s@.subrange(0, p@.len() as int)[i as int] != p@[i as int]);
            return false;
        }
        i = i + 1;
    }
    assert(s@.subrange(0, p@.len() as int) =~= p@);
    true
}

/// Appends `b` to `out`.
fn append(out: &mut Vec<u8>, b: &[u8])
    ensures
        final(out)@ == old(out)@ + b@,
{
    let mut i: usize = 0;
    while i < b.len()
        invariant
            i <= b@.len(),
            out@ == old(out)@ + b@.subrange(0, i as int),
        decreases b@.len() - i,
    {
        out.push(b[i]);
        i = i + 1;
        assert(out@ =~= old(out)@ + b@.subrange(0, i as int));
    }
    assert(b@.subrange(0, b@.len() as int) =~= b@);
}

/// Appends the decimal digits of `n` to `out`.
fn push_decimal(out: &mut Vec<u8>, n: usize)
    ensures
        final(out)@ == old(out)@ + decimal(n as nat),
    decreases n,
{
    if n < 10 {
        out.push((48 + n) as u8);
        assert(out@ =~= old(out)@ + decimal(n as nat));
    } else {
        push_decimal(out, n / 10);
        out.push((48 + n % 10) as u8);
        assert(out@ =~= old(out)@ + decimal(n as nat));
    }
}

/// Decides how to answer a request from its first bytes.
pub fn route(request: &[u8]) -> (r: Route)
    ensures
        r == route_of(request@),
{
    let home: Vec<u8> = vec![71u8, 69, 84, 32, 47, 32, 72, 84, 84, 80, 47, 49, 46, 49, 13, 10];
    assert(home@ =~= home_line());
    if has_prefix(request, &home) {
        return Route::Home;
    }
    let sleep: Vec<u8> = vec![
        71u8, 69, 84, 32, 47, 115, 108, 101, 101, 112, 32, 72, 84, 84, 80, 47, 49, 46, 49, 13, 10,
    ];
    assert(sleep@ =~= sleep_line());
    if has_prefix(request, &sleep) {
        Route::SlowHome
    } else {
        Route::Missing
    }
}

impl Route {
    /// The status line of the answer.
    pub fn status_line(&self) -> (r: Vec<u8>)
        ensures
            r@ == (if *self == Route::Missing {
                not_found_status()
            } else {
                ok_status()
            }),
    {
        match self {
            Route::Missing => {
                let r: Vec<u8> = vec![
                    72u8, 84, 84, 80, 47, 49, 46, 49, 32, 52, 48, 52, 32, 78, 79, 84, 32, 70, 79,
                    85, 78, 68,
                ];
                assert(r@ =~= not_found_status());
                r
            },
            _ => {
                let r: Vec<u8> = vec![72u8, 84, 84, 80, 47, 49, 46, 49, 32, 50, 48, 48, 32, 79, 75];
                assert(r@ =~= ok_status());
                r
            },
        }
    }

    /// The name of the page file that makes up the body.
    pub fn file_name(&self) -> (r: &'static str)
        ensures
            r@ == (if *self == Route::Missing {
                "404.html"@
            } else {
                "index.html"@
            }),
    {
        match self {
            Route::Missing => "404.html",
            _ => "index.html",
        }
    }

    /// Whether the answer waits before it is sent.
    pub fn pauses(&self) -> (r: bool)
        ensures
            r == (*self == Route::SlowHome),
    {
        match self {
            Route::SlowHome => true,
            _ => false,
        }
    }
}

/// Frames a response from its status line and body.
pub fn response(status_line: &[u8], body: &[u8]) -> (r: Vec<u8>)
    ensures
        r@ == response_of(status_line@, body@),
{
    let mut out: Vec<u8> = Vec::new();
    append(&mut out, status_line);
    let header: Vec<u8> = vec![
        13u8, 10, 67, 111, 110, 116, 101, 110, 116, 45, 76, 101, 110, 103, 116, 104, 58, 32,
    ];
    assert(header@ =~= length_header());
    append(&mut out, header.as_slice());
    push_decimal(&mut out, body.len());
    let blank: Vec<u8> = vec![13u8, 10, 13, 10];
    assert(blank@ =~= blank_line());
    append(&mut out, blank.as_slice());
    append(&mut out, body);
    assert(out@ =~= response_of(status_line@, body@));
    out
}

} // verus!
