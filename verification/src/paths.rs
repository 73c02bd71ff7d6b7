//! File system paths as text, joined the way `PathBuf::push` joins them on
//! Unix.
use vstd::prelude::*;
use crate::strs::{append_str, chars_of, push_char};

verus! {

/// `base` with `part` pushed onto it: an absolute `part` replaces `base`;
/// otherwise a `/` separates them unless `base` is empty or already ends
/// with one.
pub open spec fn path_join(base: Seq<char>, part: Seq<char>) -> Seq<char> {
    if part.len() > 0 && part[0] == '/' {
        part
    } else if base.len() == 0 || base.last() == '/' {
        base + part
    } else {
        base + seq!['/'] + part
    }
}

/// Pushes `part` onto the path `base`.
pub fn push_path(base: &mut String, part: &str)
    ensures
        final(base)@ == path_join(old(base)@, part@),
{
    let p = chars_of(part);
    if p.len() > 0 && p[0] == '/' {
        *base = crate::strs::str_to_string(part);
        return;
    }
    let b = chars_of(base.as_str());
    if b.len() == 0 || b[b.len() - 1] == '/' {
        append_str(base, part);
    } else {
        push_char(base, '/');
        append_str(base, part);
    }
}

/// The path `base` with `part` pushed onto it.
pub fn joined(base: &str, part: &str) -> (r: String)
    ensures
        r@ == path_join(base@, part@),
{
    let mut s = crate::strs::str_to_string(base);
    push_path(&mut s, part);
    s
}

/// Where the Labt home directory is to be found.
#[derive(Debug, PartialEq, Eq)]
pub enum HomeLocation {
    /// The directory `LABT_HOME` names, taken as it is.
    Configured(String),
    /// The `.labt` directory under the user's home, which is the Labt home
    /// only if it exists.
    UnderHome(String),
}

/// Why no Labt home can be found.
#[derive(Debug, PartialEq, Eq, Clone, Copy)]
pub enum HomeError {
    /// Neither `LABT_HOME` nor the user's home is set.
    NotDetected,
    /// `LABT_HOME` is unset and there is no `.labt` directory in the user's
    /// home.
    NotFound,
}

/// Where to look for the Labt home, given the values of `LABT_HOME` and of
/// the user's home directory (`None` where unset): `LABT_HOME` wins;
/// otherwise `.labt` under the home directory.
pub fn home_candidate(labt_home: Option<String>, home: Option<String>) -> (r: Result<HomeLocation, HomeError>)
    ensures
        match (labt_home, home) {
            (Some(l), _) => r matches Ok(HomeLocation::Configured(p)) && p@ == l@,
            (None, Some(h)) => r matches Ok(HomeLocation::UnderHome(p)) && p@ == path_join(h@, ".labt"@),
            (None, None) => r == Err::<HomeLocation, HomeError>(HomeError::NotDetected),
        },
{
    match labt_home {
        Some(l) => Ok(HomeLocation::Configured(l)),
        None => match home {
            Some(h) => Ok(HomeLocation::UnderHome(joined(h.as_str(), ".labt"))),
            None => Err(HomeError::NotDetected),
        },
    }
}

/// The Labt home, given the values of `LABT_HOME` and of the user's home
/// directory (`None` where unset) and whether the `.labt` directory under
/// that home exists: the directory `LABT_HOME` names, taken as it is;
/// otherwise `.labt` under the home directory, which must exist.
pub fn get_home(labt_home: Option<String>, home: Option<String>, labt_dir_exists: bool) -> (r: Result<String, HomeError>)
    ensures
        match (labt_home, home) {
            (Some(l), _) => r matches Ok(p) && p@ == l@,
            (None, Some(h)) => if labt_dir_exists {
                r matches Ok(p) && p@ == path_join(h@, ".labt"@)
            } else {
                r == Err::<String, HomeError>(HomeError::NotFound)
            },
            (None, None) => r == Err::<String, HomeError>(HomeError::NotDetected),
        },
{
    match home_candidate(labt_home, home) {
        Ok(HomeLocation::Configured(p)) => Ok(p),
        Ok(HomeLocation::UnderHome(p)) => {
            if labt_dir_exists {
                Ok(p)
            } else {
                Err(HomeError::NotFound)
            }
        },
        Err(e) => Err(e),
    }
}

/// What a lookup of the Labt home gives when `cache` holds the home found
/// earlier (if any) and `found` is what a fresh lookup finds: the home found
/// earlier, or else the fresh one, which is then remembered if it was
/// found.
pub open spec fn remembered_home(cache: Option<Seq<char>>, found: Result<Seq<char>, HomeError>) -> (
    Result<Seq<char>, HomeError>,
    Option<Seq<char>>,
) {
    match cache {
        Some(q) => (Ok(q), Some(q)),
        None => match found {
            Ok(p) => (Ok(p), Some(p)),
            Err(e) => (Err(e), None),
        },
    }
}

pub open spec fn home_result(labt_home: Option<String>, home: Option<String>, labt_dir_exists: bool) -> Result<
    Seq<char>,
    HomeError,
> {
    match (labt_home, home) {
        (Some(l), _) => Ok(l@),
        (None, Some(h)) => if labt_dir_exists {
            Ok(path_join(h@, ".labt"@))
        } else {
            Err(HomeError::NotFound)
        },
        (None, None) => Err(HomeError::NotDetected),
    }
}

/// The Labt home, remembered in `cache`: once found, the same home is given
/// for every later lookup; until then it is looked up as `get_home` does.
pub fn get_home_cached(
    cache: &mut Option<String>,
    labt_home: Option<String>,
    home: Option<String>,
    labt_dir_exists: bool,
) -> (r: Result<String, HomeError>)
    ensures
        ({
            let (res, next) = remembered_home(
                match *old(cache) {
                    Some(q) => Some(q@),
                    None => None,
                },
                home_result(labt_home, home, labt_dir_exists),
            );
            &&& match res {
                Ok(p) => r matches Ok(x) && x@ == p,
                Err(e) => r == Err::<String, HomeError>(e),
            }
            &&& match *final(cache) {
                Some(q) => next == Some(q@),
                None => next is None,
            }
        }),
{
    match cache {
        Some(q) => {
            return Ok(crate::strs::str_to_string(q.as_str()));
        },
        None => {},
    }
    match get_home(labt_home, home, labt_dir_exists) {
        Ok(p) => {
            *cache = Some(crate::strs::str_to_string(p.as_str()));
            Ok(p)
        },
        Err(e) => Err(e),
    }
}

/// Once the Labt home has been found, every later lookup gives that same
/// home, whatever a fresh lookup would find.
pub proof fn lemma_home_stays_found(
    cache: Option<Seq<char>>,
    first: Result<Seq<char>, HomeError>,
    later: Result<Seq<char>, HomeError>,
)
    requires
        remembered_home(cache, first).0 is Ok,
    ensures
        remembered_home(remembered_home(cache, first).1, later).0 == remembered_home(cache, first).0,
        remembered_home(remembered_home(cache, first).1, later).1 == remembered_home(cache, first).1,
{
}

} // verus!
