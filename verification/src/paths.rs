//! Resolution of the directories to scan from the configuration values the
//! caller read out of the environment: the colon-separated system data roots
//! (each scanned under its `applications/` subdirectory, with one
//! conventional fallback), and the user override directory.

use vstd::prelude::*;
use crate::text::{append_bytes, clone_bytes, split_at_byte, split_bytes};

verus! {

/// The bytes of `"/applications/"`.
pub open spec fn applications_suffix() -> Seq<u8> {
    seq![47u8, 97u8, 112u8, 112u8, 108u8, 105u8, 99u8, 97u8, 116u8, 105u8, 111u8, 110u8, 115u8, 47u8]
}

/// The bytes of `"/.local/share/applications/"`.
pub open spec fn user_fallback_suffix() -> Seq<u8> {
    seq![47u8, 46u8, 108u8, 111u8, 99u8, 97u8, 108u8, 47u8, 115u8, 104u8, 97u8, 114u8, 101u8]
        + applications_suffix()
}

/// The bytes of `"/usr/share/applications"`, the directory scanned when no
/// search path is configured.
pub open spec fn default_system_dir() -> Seq<u8> {
    seq![47u8, 117u8, 115u8, 114u8, 47u8, 115u8, 104u8, 97u8, 114u8, 101u8, 47u8, 97u8, 112u8, 112u8, 108u8, 105u8, 99u8, 97u8, 116u8, 105u8, 111u8, 110u8, 115u8]
}

/// Builds the `"/applications/"` suffix.
pub fn applications_suffix_bytes() -> (r: Vec<u8>)
    ensures
        r@ == applications_suffix(),
{
    let mut v: Vec<u8> = Vec::new();
    v.push(47u8);
    v.push(97u8);
    v.push(112u8);
    v.push(112u8);
    v.push(108u8);
    v.push(105u8);
    v.push(99u8);
    v.push(97u8);
    v.push(116u8);
    v.push(105u8);
    v.push(111u8);
    v.push(110u8);
    v.push(115u8);
    v.push(47u8);
    proof {
        assert(v@ =~= applications_suffix());
    }
    v
}

/// Builds the `"/.local/share/applications/"` suffix.
pub fn user_fallback_suffix_bytes() -> (r: Vec<u8>)
    ensures
        r@ == user_fallback_suffix(),
{
    let mut v: Vec<u8> = Vec::new();
    v.push(47u8);
    v.push(46u8);
    v.push(108u8);
    v.push(111u8);
    v.push(99u8);
    v.push(97u8);
    v.push(108u8);
    v.push(47u8);
    v.push(115u8);
    v.push(104u8);
    v.push(97u8);
    v.push(114u8);
    v.push(101u8);
    let suffix = applications_suffix_bytes();
    append_bytes(&mut v, &suffix);
    proof {
        assert(v@ =~= user_fallback_suffix());
    }
    v
}

/// Builds the `"/usr/share/applications"` fallback directory.
pub fn default_system_dir_bytes() -> (r: Vec<u8>)
    ensures
        r@ == default_system_dir(),
{
    let mut v: Vec<u8> = Vec::new();
    v.push(47u8);
    v.push(117u8);
    v.push(115u8);
    v.push(114u8);
    v.push(47u8);
    v.push(115u8);
    v.push(104u8);
    v.push(97u8);
    v.push(114u8);
    v.push(101u8);
    v.push(47u8);
    v.push(97u8);
    v.push(112u8);
    v.push(112u8);
    v.push(108u8);
    v.push(105u8);
    v.push(99u8);
    v.push(97u8);
    v.push(116u8);
    v.push(105u8);
    v.push(111u8);
    v.push(110u8);
    v.push(115u8);
    proof {
        assert(v@ =~= default_system_dir());
    }
    v
}

/// The application directories named by a search path: every colon-separated
/// segment, each with `"/applications/"` appended.
pub open spec fn search_dirs_of(dirs: Seq<u8>) -> Seq<Seq<u8>> {
    split_at_byte(dirs, 58u8).map_values(|d: Seq<u8>| d + applications_suffix())
}

/// The directories to scan: those of the configured search path, or the one
/// conventional location when no search path is set.
pub fn resolve_search_dirs(data_dirs: &Option<Vec<u8>>) -> (r: Vec<Vec<u8>>)
    ensures
        data_dirs matches Some(s) ==> r.deep_view() == search_dirs_of(s@),
        data_dirs is None ==> r.deep_view() == seq![default_system_dir()],
{
    match data_dirs {
        Some(s) => {
            let parts = split_bytes(s, 58u8);
            let suffix = applications_suffix_bytes();
            let ghost pv = parts.deep_view();
            let mut r: Vec<Vec<u8>> = Vec::new();
            let mut i: usize = 0;
            proof {
                assert(r.deep_view() =~= pv.take(0).map_values(
                    |d: Seq<u8>| d + applications_suffix(),
                ));
            }
            while i < parts.len()
                invariant
                    0 <= i <= pv.len(),
                    pv == parts.deep_view(),
                    suffix@ == applications_suffix(),
                    r.deep_view() == pv.take(i as int).map_values(
                        |d: Seq<u8>| d + applications_suffix(),
                    ),
                decreases pv.len() - i,
            {
                let mut dir = clone_bytes(&parts[i]);
                append_bytes(&mut dir, &suffix);
                let ghost prev = r.deep_view();
                r.push(dir);
                proof {
                    assert(parts@[i as int].deep_view() =~= parts@[i as int]@);
                    assert(r.deep_view() =~~= prev.push(dir@));
                    assert(r.deep_view() =~= pv.take(i + 1).map_values(
                        |d: Seq<u8>| d + applications_suffix(),
                    ));
                }
                i = i + 1;
            }
            proof {
                assert(pv.take(pv.len() as int) =~= pv);
            }
            r
        },
        None => {
            let mut r: Vec<Vec<u8>> = Vec::new();
            r.push(default_system_dir_bytes());
            proof {
                assert(r.deep_view() =~~= seq![default_system_dir()]);
            }
            r
        },
    }
}

/// The user override directory: the user data root with `"/applications/"`
/// appended, or the conventional location under the home directory; `None`
/// when neither root is configured, which the caller treats as fatal.
pub fn resolve_user_dir(data_home: &Option<Vec<u8>>, home: &Option<Vec<u8>>) -> (r: Option<
    Vec<u8>,
>)
    ensures
        data_home matches Some(h) ==> r.deep_view() == Some(h@ + applications_suffix()),
        data_home is None ==> (home matches Some(h) ==> r.deep_view() == Some(
            h@ + user_fallback_suffix(),
        )),
        data_home is None && home is None ==> r is None,
{
    match data_home {
        Some(h) => {
            let mut dir = clone_bytes(h);
            let suffix = applications_suffix_bytes();
            append_bytes(&mut dir, &suffix);
            proof {
                assert(dir.deep_view() =~= dir@);
            }
            Some(dir)
        },
        None => {
            match home {
                Some(h) => {
                    let mut dir = clone_bytes(h);
                    let suffix = user_fallback_suffix_bytes();
                    append_bytes(&mut dir, &suffix);
                    proof {
                        assert(dir.deep_view() =~= dir@);
                    }
                    Some(dir)
                },
                None => None,
            }
        },
    }
}

} // verus!
