//! Errors that the command line, the HTTP API and the MCP server all need to describe precisely
//! (not found, ambiguous, bad request), and everything else, which travels as a message.

use vstd::prelude::*;
use vstd::string::*;

use crate::model::{ApiError, ApiErrorView, Asset, AssetView, Package, PackageView};
use crate::number::{decimal_i64, decimal_usize, numeral, signed_numeral};

verus! {

/// A failure that is the caller's to mend.
#[derive(Debug)]
pub enum UaiError {
    NotFound(String),
    Ambiguous { message: String, candidates: Vec<Asset>, package_candidates: Vec<Package> },
    Invalid(String),
    Remote(String),
}

/// What a [`UaiError`] holds.
#[verifier::ext_equal]
pub enum UaiErrorView {
    NotFound(Seq<char>),
    Ambiguous { message: Seq<char>, candidates: Seq<AssetView>, package_candidates: Seq<PackageView> },
    Invalid(Seq<char>),
    Remote(Seq<char>),
}

impl View for UaiError {
    type V = UaiErrorView;

    open spec fn view(&self) -> UaiErrorView {
        match self {
            UaiError::NotFound(m) => UaiErrorView::NotFound(m@),
            UaiError::Ambiguous { message, candidates, package_candidates } => UaiErrorView::Ambiguous {
                message: message@,
                candidates: candidates.deep_view(),
                package_candidates: package_candidates.deep_view(),
            },
            UaiError::Invalid(m) => UaiErrorView::Invalid(m@),
            UaiError::Remote(m) => UaiErrorView::Remote(m@),
        }
    }
}

impl DeepView for UaiError {
    type V = UaiErrorView;

    open spec fn deep_view(&self) -> UaiErrorView {
        self.view()
    }
}

/// Any failure.
#[derive(Debug)]
pub enum Error {
    /// One that is the caller's to mend.
    User(UaiError),
    /// Any other, in words.
    Other(String),
}

/// What an [`Error`] holds.
#[verifier::ext_equal]
pub enum ErrorView {
    User(UaiErrorView),
    Other(Seq<char>),
}

impl View for Error {
    type V = ErrorView;

    open spec fn view(&self) -> ErrorView {
        match self {
            Error::User(e) => ErrorView::User(e@),
            Error::Other(m) => ErrorView::Other(m@),
        }
    }
}

impl DeepView for Error {
    type V = ErrorView;

    open spec fn deep_view(&self) -> ErrorView {
        self.view()
    }
}

/// What a fallible function gives back, its value and its error by what they hold.
pub open spec fn outcome<T: DeepView>(r: Result<T, Error>) -> Result<<T as DeepView>::V, ErrorView> {
    match r {
        Ok(v) => Ok(v.deep_view()),
        Err(e) => Err(e@),
    }
}

/// "Not found", as an error.
pub open spec fn not_found(message: Seq<char>) -> ErrorView {
    ErrorView::User(UaiErrorView::NotFound(message))
}

/// "Bad request", as an error.
pub open spec fn invalid(message: Seq<char>) -> ErrorView {
    ErrorView::User(UaiErrorView::Invalid(message))
}

/// Several assets match.
pub open spec fn several_assets(message: Seq<char>, candidates: Seq<AssetView>) -> UaiErrorView {
    UaiErrorView::Ambiguous { message, candidates, package_candidates: Seq::empty() }
}

/// Several packages match.
pub open spec fn several_packages(message: Seq<char>, candidates: Seq<PackageView>) -> UaiErrorView {
    UaiErrorView::Ambiguous { message, candidates: Seq::empty(), package_candidates: candidates }
}

/// The message of an error.
pub open spec fn message_of(e: UaiErrorView) -> Seq<char> {
    match e {
        UaiErrorView::NotFound(m) => m,
        UaiErrorView::Ambiguous { message, .. } => message,
        UaiErrorView::Invalid(m) => m,
        UaiErrorView::Remote(m) => m,
    }
}

/// The HTTP status of an error.
pub open spec fn status_of(e: UaiErrorView) -> u16 {
    match e {
        UaiErrorView::NotFound(_) => 404,
        UaiErrorView::Ambiguous { .. } => 409,
        UaiErrorView::Invalid(_) => 400,
        UaiErrorView::Remote(_) => 502,
    }
}

/// The payload of an error.
pub open spec fn api_of(e: UaiErrorView) -> ApiErrorView {
    match e {
        UaiErrorView::Ambiguous { message, candidates, package_candidates } => ApiErrorView {
            error: message,
            candidates,
            package_candidates,
        },
        _ => ApiErrorView {
            error: message_of(e),
            candidates: Seq::empty(),
            package_candidates: Seq::empty(),
        },
    }
}

/// The error that a status and a payload stand for.
pub open spec fn error_from(status: u16, api: ApiErrorView) -> UaiErrorView {
    if status == 404 {
        UaiErrorView::NotFound(api.error)
    } else if status == 409 {
        UaiErrorView::Ambiguous {
            message: api.error,
            candidates: api.candidates,
            package_candidates: api.package_candidates,
        }
    } else if status == 400 {
        UaiErrorView::Invalid(api.error)
    } else {
        UaiErrorView::Remote(api.error)
    }
}

/// An error that goes through the HTTP API comes out as it went in.
pub proof fn errors_survive_the_api(e: UaiErrorView)
    ensures
        error_from(status_of(e), api_of(e)) == e,
{
}

impl UaiError {
    pub fn ambiguous_assets(message: String, candidates: Vec<Asset>) -> (r: Self)
        ensures
            r@ == several_assets(message@, candidates.deep_view()),
    {
        let r = UaiError::Ambiguous { message, candidates, package_candidates: Vec::new() };
        assert(r->package_candidates.deep_view() =~= Seq::<PackageView>::empty());
        r
    }

    pub fn ambiguous_packages(message: String, candidates: Vec<Package>) -> (r: Self)
        ensures
            r@ == several_packages(message@, candidates.deep_view()),
    {
        let r = UaiError::Ambiguous { message, candidates: Vec::new(), package_candidates: candidates };
        assert(r->candidates.deep_view() =~= Seq::<AssetView>::empty());
        r
    }

    /// The message of this error.
    pub fn message(&self) -> (r: String)
        ensures
            r@ == message_of(self@),
    {
        match self {
            UaiError::NotFound(m) => m.clone(),
            UaiError::Ambiguous { message, .. } => message.clone(),
            UaiError::Invalid(m) => m.clone(),
            UaiError::Remote(m) => m.clone(),
        }
    }

    /// HTTP status the API uses for this error.
    pub fn status(&self) -> (r: u16)
        ensures
            r == status_of(self@),
    {
        match self {
            UaiError::NotFound(_) => 404,
            UaiError::Ambiguous { .. } => 409,
            UaiError::Invalid(_) => 400,
            UaiError::Remote(_) => 502,
        }
    }

    pub fn to_api(&self) -> (r: ApiError)
        ensures
            r@ == api_of(self@),
    {
        match self {
            UaiError::Ambiguous { message, candidates, package_candidates } => {
                let r = ApiError {
                    error: message.clone(),
                    candidates: candidates.clone(),
                    package_candidates: package_candidates.clone(),
                };
                assert(r.candidates.deep_view() =~= candidates.deep_view());
                assert(r.package_candidates.deep_view() =~= package_candidates.deep_view());
                r
            },
            _ => plain_api(self.message()),
        }
    }

    pub fn from_api(status: u16, api: ApiError) -> (r: Self)
        ensures
            r@ == error_from(status, api@),
    {
        if status == 404 {
            UaiError::NotFound(api.error)
        } else if status == 409 {
            UaiError::Ambiguous {
                message: api.error,
                candidates: api.candidates,
                package_candidates: api.package_candidates,
            }
        } else if status == 400 {
            UaiError::Invalid(api.error)
        } else {
            UaiError::Remote(api.error)
        }
    }
}

/// A payload without candidates.
pub fn plain_api(message: String) -> (r: ApiError)
    ensures
        r@ == (ApiErrorView {
            error: message@,
            candidates: Seq::empty(),
            package_candidates: Seq::empty(),
        }),
{
    let r = ApiError { error: message, candidates: Vec::new(), package_candidates: Vec::new() };
    assert(r.candidates.deep_view() =~= Seq::<AssetView>::empty());
    assert(r.package_candidates.deep_view() =~= Seq::<PackageView>::empty());
    r
}

/// Status and payload of the reply to a failed request.
pub open spec fn reply_to(e: ErrorView) -> (u16, ApiErrorView) {
    match e {
        ErrorView::User(u) => (status_of(u), api_of(u)),
        ErrorView::Other(m) => (
            500,
            ApiErrorView { error: m, candidates: Seq::empty(), package_candidates: Seq::empty() },
        ),
    }
}

impl Error {
    /// Status and payload of the reply to a request that failed with this error.
    pub fn reply(&self) -> (r: (u16, ApiError))
        ensures
            (r.0, r.1@) == reply_to(self@),
    {
        match self {
            Error::User(u) => (u.status(), u.to_api()),
            Error::Other(m) => (500, plain_api(m.clone())),
        }
    }
}

// ----- for the terminal ----------------------------------------------------------------------

/// How many candidates are listed.
pub open spec fn first_n<T>(s: Seq<T>, n: int) -> Seq<T> {
    if s.len() > n {
        s.take(n)
    } else {
        s
    }
}

/// One line for each asset: guid, package and path.
pub open spec fn asset_lines(s: Seq<AssetView>) -> Seq<char>
    decreases s.len(),
{
    if s.len() == 0 {
        Seq::empty()
    } else {
        let c = s.last();
        asset_lines(s.drop_last()) + "\n  "@ + c.guid + "  ["@ + c.package + "] "@ + c.path
    }
}

/// One line for each package: id and name.
pub open spec fn package_lines(s: Seq<PackageView>) -> Seq<char>
    decreases s.len(),
{
    if s.len() == 0 {
        Seq::empty()
    } else {
        let p = s.last();
        package_lines(s.drop_last()) + "\n  ["@ + signed_numeral(p.id as int) + "] "@ + p.name
    }
}

/// An error in words, with the candidates of an ambiguous identifier: at most fifteen assets, and
/// how many more there are, and at most twenty packages.
pub open spec fn described(e: ErrorView) -> Seq<char> {
    match e {
        ErrorView::Other(m) => m,
        ErrorView::User(UaiErrorView::Ambiguous { message, candidates, package_candidates }) => {
            message + asset_lines(first_n(candidates, 15)) + (if candidates.len() > 15 {
                "\n  ... "@ + numeral((candidates.len() - 15) as nat) + " more"@
            } else {
                Seq::empty()
            }) + package_lines(first_n(package_candidates, 20))
        },
        ErrorView::User(u) => message_of(u),
    }
}

/// Renders an error for the terminal, including candidate lists for ambiguous identifiers.
pub fn describe(err: &Error) -> (r: String)
    ensures
        r@ == described(err@),
{
    match err {
        Error::Other(m) => m.clone(),
        Error::User(UaiError::Ambiguous { message, candidates, package_candidates }) => {
            let mut s = message.clone();
            let lines = list_assets(candidates, 15);
            s.append(lines.as_str());
            let n: usize = candidates.len();
            if n > 15 {
                let mut more = "\n  ... ".to_string();
                more.append(decimal_usize(n - 15).as_str());
                more.append(" more");
                s.append(more.as_str());
            } else {
                assert(s@ + Seq::<char>::empty() =~= s@);
            }
            let lines = list_packages(package_candidates, 20);
            s.append(lines.as_str());
            s
        },
        Error::User(u) => u.message(),
    }
}

fn list_assets(v: &Vec<Asset>, max: usize) -> (r: String)
    ensures
        r@ == asset_lines(first_n(v.deep_view(), max as int)),
{
    let n: usize = if v.len() > max {
        max
    } else {
        v.len()
    };
    let mut s = String::new();
    let mut i: usize = 0;
    assert(v.deep_view().take(0) =~= Seq::<AssetView>::empty());
    while i < n
        invariant
            i <= n <= v@.len(),
            s@ == asset_lines(v.deep_view().take(i as int)),
        decreases n - i,
    {
        proof {
            let a = v.deep_view();
            assert(a.take(i + 1).drop_last() =~= a.take(i as int));
            assert(a.take(i + 1).last() == v@[i as int]@);
        }
        s.append("\n  ");
        s.append(v[i].guid.as_str());
        s.append("  [");
        s.append(v[i].package.as_str());
        s.append("] ");
        s.append(v[i].path.as_str());
        i += 1;
    }
    assert(v.deep_view().take(v@.len() as int) =~= v.deep_view());
    s
}

fn list_packages(v: &Vec<Package>, max: usize) -> (r: String)
    ensures
        r@ == package_lines(first_n(v.deep_view(), max as int)),
{
    let n: usize = if v.len() > max {
        max
    } else {
        v.len()
    };
    let mut s = String::new();
    let mut i: usize = 0;
    assert(v.deep_view().take(0) =~= Seq::<PackageView>::empty());
    while i < n
        invariant
            i <= n <= v@.len(),
            s@ == package_lines(v.deep_view().take(i as int)),
        decreases n - i,
    {
        proof {
            let a = v.deep_view();
            assert(a.take(i + 1).drop_last() =~= a.take(i as int));
            assert(a.take(i + 1).last() == v@[i as int]@);
        }
        s.append("\n  [");
        s.append(decimal_i64(v[i].id).as_str());
        s.append("] ");
        s.append(v[i].name.as_str());
        i += 1;
    }
    assert(v.deep_view().take(v@.len() as int) =~= v.deep_view());
    s
}

} // verus!
