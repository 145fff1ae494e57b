//! Locating the native library and its core image before the first call
//! into them.

use vstd::prelude::*;

verus! {

/// Why the native runtime could not be set up.
#[derive(Debug, PartialEq, Eq)]
pub enum Error {
    /// None of the places where the core image may lie holds it.
    CoreFileNotFound,
    /// The operating system is one for which no library name is known.
    UnsupportedOperatingSystem(String),
}

/// The places searched for the core image after any path given at build
/// time.
pub open spec fn default_core_paths() -> Seq<Seq<char>> {
    seq!["/usr/local/lib/libquil.core"@, "/usr/lib/libquil.core"@]
}

pub open spec fn core_message() -> Seq<char> {
    "Could not find libquil core file. Set the LIBQUIL_CORE_PATH environment variable."@
}

pub open spec fn unsupported_prefix() -> Seq<char> {
    "Unsupported Operating System: "@
}

pub open spec fn error_message(e: Error) -> Seq<char> {
    match e {
        Error::CoreFileNotFound => core_message(),
        Error::UnsupportedOperatingSystem(os) => unsupported_prefix() + os@,
    }
}

impl Error {
    /// The text that describes the error.
    pub fn message(&self) -> (r: String)
        ensures
            r@ == error_message(*self),
    {
        match self {
            Error::CoreFileNotFound => String::from_str(
                "Could not find libquil core file. Set the LIBQUIL_CORE_PATH environment variable.",
            ),
            Error::UnsupportedOperatingSystem(os) => {
                let mut r = String::from_str("Unsupported Operating System: ");
                r.append(os.as_str());
                r
            },
        }
    }
}

/// The places to search for the core image, in order: the path given at
/// build time if there is one, then the two customary places.
pub fn core_file_candidates(build_time_path: Option<&str>) -> (r: Vec<String>)
    ensures
        r@.map_values(|s: String| s@) == match build_time_path {
            Some(p) => seq![p@] + default_core_paths(),
            None => default_core_paths(),
        },
{
    let mut r: Vec<String> = Vec::new();
    match build_time_path {
        Some(p) => r.push(p.to_owned()),
        None => {},
    }
    r.push(String::from_str("/usr/local/lib/libquil.core"));
    r.push(String::from_str("/usr/lib/libquil.core"));
    proof {
        let expected = match build_time_path {
            Some(p) => seq![p@] + default_core_paths(),
            None => default_core_paths(),
        };
        assert(r@.map_values(|s: String| s@) =~= expected);
    }
    r
}

/// The first candidate that exists, given each candidate path with whether
/// it exists.
pub fn find_core_file(candidates: &Vec<(String, bool)>) -> (r: Result<String, Error>)
    ensures
        match r {
            Ok(p) => exists|i: int|
                0 <= i < candidates@.len() && #[trigger] candidates@[i].1 && candidates@[i].0@ == p@
                    && forall|k: int| 0 <= k < i ==> !(#[trigger] candidates@[k].1),
            Err(e) => e == Error::CoreFileNotFound && forall|k: int|
                0 <= k < candidates@.len() ==> !(#[trigger] candidates@[k].1),
        },
{
    let mut i: usize = 0;
    while i < candidates.len()
        invariant
            i <= candidates.len(),
            forall|k: int| 0 <= k < i ==> !(#[trigger] candidates@[k].1),
        decreases candidates.len() - i,
    {
        if candidates[i].1 {
            return Ok(candidates[i].0.clone());
        }
        i = i + 1;
    }
    Err(Error::CoreFileNotFound)
}

/// The file name of the native library on an operating system, as Rust
/// names the system (`std::env::consts::OS`).
pub fn library_name(os: &str) -> (r: Result<String, Error>)
    ensures
        os@ == "linux"@ ==> (r matches Ok(n) && n@ == "libquil.so"@),
        os@ == "macos"@ ==> (r matches Ok(n) && n@ == "libquil.dylib"@),
        os@ != "linux"@ && os@ != "macos"@ ==> (r matches Err(
            Error::UnsupportedOperatingSystem(s),
        ) && s@ == os@),
{
    let name = os.to_owned();
    proof {
        reveal_strlit("linux");
        reveal_strlit("macos");
        assert("linux"@[0] != "macos"@[0]);
    }
    if name == String::from_str("linux") {
        Ok(String::from_str("libquil.so"))
    } else if name == String::from_str("macos") {
        Ok(String::from_str("libquil.dylib"))
    } else {
        Err(Error::UnsupportedOperatingSystem(name))
    }
}

} // verus!
