//! Client-side routing: the bidirectional mapping between a URL path and the
//! closed set of routes (`/`, `/about`, `/post/<id>`), with explicit failures
//! for unknown paths and for a post segment that is not a number.

use vstd::prelude::*;
use crate::digits::{all_digits, dec_digits, digit_val, digits_val, is_digit,
    lemma_dec_digits_shape, lemma_dec_digits_val, u64_to_dec};

verus! {

/// The closed set of views a path can name.
#[derive(Clone, Copy, PartialEq, Eq, Structural, Debug)]
pub enum Route {
    Home,
    About,
    Post { id: u64 },
}

/// Why a path names no route.
#[derive(Clone, Copy, PartialEq, Eq, Structural, Debug)]
pub enum RouteError {
    /// The path matches none of the known patterns.
    RouteNotFound,
    /// The path matches `/post/<id>` but the segment is not a non-negative
    /// integer that fits the id type.
    InvalidRouteParameter,
}

/// The characters of the fixed prefix `/post/`.
pub open spec fn post_prefix() -> Seq<char> {
    seq!['/', 'p', 'o', 's', 't', '/']
}

/// The characters of the fixed path `/about`.
pub open spec fn about_path() -> Seq<char> {
    seq!['/', 'a', 'b', 'o', 'u', 't']
}

/// The path grammar: `/` is home, `/about` is about, `/post/<digits>` is the
/// post with that id. A `/post/` segment with further segments is unknown; a
/// single segment that is not a fitting number is an invalid parameter; any
/// other path is unknown.
pub open spec fn spec_parse_path(p: Seq<char>) -> Result<Route, RouteError> {
    if p =~= seq!['/'] {
        Ok(Route::Home)
    } else if p =~= about_path() {
        Ok(Route::About)
    } else if p.len() >= 6 && p.subrange(0, 6) =~= post_prefix() {
        let rest = p.skip(6);
        if rest.len() == 0 {
            Err(RouteError::InvalidRouteParameter)
        } else if exists|i: int| 0 <= i < rest.len() && rest[i] == '/' {
            Err(RouteError::RouteNotFound)
        } else if all_digits(rest) && digits_val(rest) <= u64::MAX {
            Ok(Route::Post { id: digits_val(rest) as u64 })
        } else {
            Err(RouteError::InvalidRouteParameter)
        }
    } else {
        Err(RouteError::RouteNotFound)
    }
}

/// The path that a route renders to.
pub open spec fn spec_route_path(r: Route) -> Seq<char> {
    match r {
        Route::Home => seq!['/'],
        Route::About => about_path(),
        Route::Post { id } => post_prefix() + dec_digits(id as int),
    }
}

/// Parses a URL path into a route, exactly as the path grammar says.
pub fn parse_path(path: &str) -> (r: Result<Route, RouteError>)
    ensures
        r == spec_parse_path(path@),
{
    let n = path.unicode_len();
    if n == 1 && path.get_char(0) == '/' {
        proof {
            assert(path@ =~= seq!['/']);
        }
        return Ok(Route::Home);
    }
    if n == 6 && path.get_char(0) == '/' && path.get_char(1) == 'a' && path.get_char(2) == 'b'
        && path.get_char(3) == 'o' && path.get_char(4) == 'u' && path.get_char(5) == 't' {
        proof {
            assert(path@ =~= about_path());
        }
        return Ok(Route::About);
    }
    proof {
        assert(!(path@ =~= seq!['/']));
        assert(!(path@ =~= about_path()));
    }
    if n >= 6 && path.get_char(0) == '/' && path.get_char(1) == 'p' && path.get_char(2) == 'o'
        && path.get_char(3) == 's' && path.get_char(4) == 't' && path.get_char(5) == '/' {
        proof {
            assert(path@.subrange(0, 6) =~= post_prefix());
        }
        let ghost rest = path@.skip(6);
        if n == 6 {
            proof {
                assert(rest.len() == 0);
            }
            return Err(RouteError::InvalidRouteParameter);
        }
        let mut i: usize = 6;
        let mut has_slash = false;
        let mut digits_only = true;
        let mut over = false;
        let mut val: u64 = 0;
        while i < n
            invariant
                6 <= i <= n,
                n == path@.len(),
                rest == path@.skip(6),
                has_slash == exists|k: int| 0 <= k < i - 6 && rest[k] == '/',
                digits_only == all_digits(rest.take(i - 6)),
                digits_only && !over ==> val == digits_val(rest.take(i - 6)) && val <= u64::MAX,
                digits_only && over ==> digits_val(rest.take(i - 6)) > u64::MAX,
            decreases n - i,
        {
            let c = path.get_char(i);
            proof {
                assert(rest[i - 6] == path@[i as int]);
                assert(rest.take(i + 1 - 6) =~= rest.take(i - 6).push(rest[i - 6]));
                assert(rest.take(i + 1 - 6).drop_last() =~= rest.take(i - 6));
                let t = rest.take(i - 6);
                let t2 = rest.take(i + 1 - 6);
                assert(forall|k: int| 0 <= k < t.len() ==> t2[k] == t[k]);
                assert(t2[i - 6] == rest[i - 6]);
                if all_digits(t) && is_digit(rest[i - 6]) {
                    assert(forall|k: int| 0 <= k < t2.len() ==> is_digit(t2[k]));
                }
                if all_digits(t2) {
                    assert(forall|k: int| 0 <= k < t.len() ==> is_digit(t[k]));
                }
                assert(all_digits(t2) == (all_digits(t) && is_digit(rest[i - 6])));
            }
            if c == '/' {
                has_slash = true;
            }
            if c >= '0' && c <= '9' {
                let ghost prev = digits_val(rest.take(i - 6));
                let d = c as u64 - 48;
                proof {
                    assert(digit_val(c) == d as int);
                    assert(digits_val(rest.take(i + 1 - 6)) == prev * 10 + d);
                }
                if digits_only && !over {
                    if val > (u64::MAX - d) / 10 {
                        over = true;
                        proof {
                            assert(prev * 10 + d > u64::MAX) by (nonlinear_arith)
                                requires
                                    prev == val as int,
                                    0 <= d < 10,
                                    val > (u64::MAX - d) / 10,
                            ;
                        }
                    } else {
                        proof {
                            assert(val * 10 + d <= u64::MAX) by (nonlinear_arith)
                                requires
                                    0 <= d < 10,
                                    0 <= val,
                                    val <= (u64::MAX - d) / 10,
                            ;
                        }
                        val = val * 10 + d;
                    }
                } else if digits_only && over {
                    proof {
                        assert(prev * 10 + d > u64::MAX) by (nonlinear_arith)
                            requires
                                prev > u64::MAX,
                                0 <= d,
                        ;
                    }
                }
            } else {
                digits_only = false;
            }
            i = i + 1;
        }
        proof {
            assert(rest.take(n - 6) =~= rest);
        }
        if has_slash {
            return Err(RouteError::RouteNotFound);
        }
        if digits_only && !over {
            return Ok(Route::Post { id: val });
        }
        return Err(RouteError::InvalidRouteParameter);
    }
    proof {
        assert(!(path@.len() >= 6 && path@.subrange(0, 6) =~= post_prefix())) by {
            if path@.len() >= 6 && path@.subrange(0, 6) =~= post_prefix() {
                assert(path@[0] == '/' && path@[1] == 'p' && path@[2] == 'o' && path@[3] == 's'
                    && path@[4] == 't' && path@[5] == '/');
            }
        }
    }
    Err(RouteError::RouteNotFound)
}

/// Renders a route back to its path.
pub fn route_path(r: &Route) -> (p: String)
    ensures
        p@ == spec_route_path(*r),
{
    match r {
        Route::Home => {
            proof {
                reveal_strlit("/");
            }
            let s = String::from_str("/");
            proof {
                assert(s@ =~= seq!['/']);
            }
            s
        },
        Route::About => {
            proof {
                reveal_strlit("/about");
            }
            let s = String::from_str("/about");
            proof {
                assert(s@ =~= about_path());
            }
            s
        },
        Route::Post { id } => {
            proof {
                reveal_strlit("/post/");
            }
            let mut s = String::from_str("/post/");
            proof {
                assert(s@ =~= post_prefix());
            }
            let d = u64_to_dec(*id);
            s.append(d.as_str());
            s
        },
    }
}

/// Rendering a route and parsing the result gives back the same route:
/// the two directions of the mapping agree.
pub proof fn lemma_route_round_trip(r: Route)
    ensures
        spec_parse_path(spec_route_path(r)) == Ok::<Route, RouteError>(r),
{
    match r {
        Route::Home => {
        },
        Route::About => {
            assert(!(about_path() =~= seq!['/']));
        },
        Route::Post { id } => {
            let ds = dec_digits(id as int);
            lemma_dec_digits_shape(id as int);
            lemma_dec_digits_val(id as int);
            let p = post_prefix() + ds;
            assert(p.len() >= 7);
            assert(!(p =~= seq!['/']));
            assert(!(p =~= about_path())) by {
                if p =~= about_path() {
                    assert(p[5] == 't');
                    assert(p[5] == '/');
                }
            }
            assert(p.subrange(0, 6) =~= post_prefix());
            assert(p.skip(6) =~= ds);
            assert(forall|i: int| 0 <= i < ds.len() ==> ds[i] != '/') by {
                assert(all_digits(ds));
                assert(forall|i: int| 0 <= i < ds.len() ==> is_digit(ds[i]) && ds[i] != '/');
            }
            assert(digits_val(ds) == id as int);
        },
    }
}

/// Parsing is a pure mapping: two parses of the same path agree.
pub proof fn lemma_parse_path_deterministic(
    p: Seq<char>,
    r1: Result<Route, RouteError>,
    r2: Result<Route, RouteError>,
)
    requires
        r1 == spec_parse_path(p),
        r2 == spec_parse_path(p),
    ensures
        r1 == r2,
{
}

} // verus!
