//! Enumeration of candidate storefront roots and construction of the
//! derived on-disk paths: the library declaration file and the installation
//! manifest marker.

use vstd::prelude::*;

use crate::order::lemma_to_set_concat;
use crate::order::lemma_to_set_push;
use crate::order::normalize_paths;
use crate::order::paths_sorted;
use crate::vdf::line_paths;
use crate::vdf::parse_libraryfolders_paths;
use vstd::string::StringExecFns;

verus! {

/// The operating-system family the root-discovery rule is selected by.
#[derive(Clone, Copy, Debug, PartialEq, Eq, Structural)]
pub enum Platform {
    /// One conventional root under the user's profile directory.
    MacOs,
    /// A modern and a legacy root under the user's home directory.
    Linux,
    /// Up to two roots under the "Program Files" style directories.
    Windows,
}

/// The manifest marker path for one library root.
pub open spec fn manifest_path_of(root: Seq<char>) -> Seq<char> {
    root + "/steamapps/appmanifest_270150.acf"@
}

/// Computes the manifest marker path for one library root.  Existence of a
/// file at this path is the sole installation signal; its content is never
/// read.
pub fn appmanifest_path_for_root(steam_root: &str) -> (r: String)
    ensures
        r@ == manifest_path_of(steam_root@),
{
    let mut out = String::from_str(steam_root);
    out.append("/steamapps/appmanifest_270150.acf");
    out
}

/// The library declaration file path for one storefront root.
pub open spec fn libraryfolders_path_of(root: Seq<char>) -> Seq<char> {
    root + "/steamapps/libraryfolders.vdf"@
}

/// Computes the path of the library declaration file under a storefront
/// root.
pub fn libraryfolders_path_for_root(steam_root: &str) -> (r: String)
    ensures
        r@ == libraryfolders_path_of(steam_root@),
{
    let mut out = String::from_str(steam_root);
    out.append("/steamapps/libraryfolders.vdf");
    out
}

/// The candidate storefront roots for a platform: determined by the home
/// directory and the two "Program Files" style directory values, where the
/// platform consults them; an absent value contributes nothing.
pub open spec fn candidate_root_set(
    platform: Platform,
    home: Option<Seq<char>>,
    program_files_x86: Option<Seq<char>>,
    program_files: Option<Seq<char>>,
) -> Set<Seq<char>> {
    match platform {
        Platform::MacOs => match home {
            Some(h) => set![h + "/Library/Application Support/Steam"@],
            None => Set::empty(),
        },
        Platform::Linux => match home {
            Some(h) => set![h + "/.local/share/Steam"@, h + "/.steam/steam"@],
            None => Set::empty(),
        },
        Platform::Windows => {
            let first = match program_files_x86 {
                Some(p) => set![p + "/Steam"@],
                None => Set::<Seq<char>>::empty(),
            };
            let second = match program_files {
                Some(p) => set![p + "/Steam"@],
                None => Set::<Seq<char>>::empty(),
            };
            first + second
        },
    }
}

/// Enumerates the plausible storefront installation roots for `platform`,
/// deduplicated and order-normalized.
///
/// The inputs are plain directory values read from the environment by the
/// caller; nothing on disk is consulted.  The result is empty only when no
/// consulted value was present, which the availability check reports as the
/// storefront itself being absent.
pub fn candidate_steam_roots(
    platform: Platform,
    home: &Option<String>,
    program_files_x86: &Option<String>,
    program_files: &Option<String>,
) -> (r: Vec<String>)
    ensures
        paths_sorted(r.deep_view()),
        r.deep_view().to_set() == candidate_root_set(
            platform,
            home.deep_view(),
            program_files_x86.deep_view(),
            program_files.deep_view(),
        ),
{
    let ghost goal = candidate_root_set(
        platform,
        home.deep_view(),
        program_files_x86.deep_view(),
        program_files.deep_view(),
    );
    let mut roots: Vec<String> = Vec::new();
    match platform {
        Platform::MacOs => {
            if let Some(h) = home {
                let mut p = String::from_str(h.as_str());
                p.append("/Library/Application Support/Steam");
                roots.push(p);
                proof {
                    assert(roots.deep_view() =~= Seq::<Seq<char>>::empty().push(p@));
                    lemma_to_set_push(Seq::<Seq<char>>::empty(), p@);
                    assert(roots.deep_view().to_set() =~= goal);
                }
            }
        },
        Platform::Linux => {
            if let Some(h) = home {
                let mut p1 = String::from_str(h.as_str());
                p1.append("/.local/share/Steam");
                roots.push(p1);
                let mut p2 = String::from_str(h.as_str());
                p2.append("/.steam/steam");
                roots.push(p2);
                proof {
                    assert(roots.deep_view() =~= Seq::<Seq<char>>::empty().push(p1@).push(p2@));
                    lemma_to_set_push(Seq::<Seq<char>>::empty(), p1@);
                    lemma_to_set_push(Seq::<Seq<char>>::empty().push(p1@), p2@);
                    assert(roots.deep_view().to_set() =~= goal);
                }
            }
        },
        Platform::Windows => {
            if let Some(p) = program_files_x86 {
                let mut q = String::from_str(p.as_str());
                q.append("/Steam");
                roots.push(q);
                proof {
                    assert(roots.deep_view() =~= Seq::<Seq<char>>::empty().push(q@));
                    lemma_to_set_push(Seq::<Seq<char>>::empty(), q@);
                }
            }
            let ghost mid = roots.deep_view();
            if let Some(p) = program_files {
                let mut q = String::from_str(p.as_str());
                q.append("/Steam");
                roots.push(q);
                proof {
                    assert(roots.deep_view() =~= mid.push(q@));
                    lemma_to_set_push(mid, q@);
                }
            }
            proof {
                assert(roots.deep_view().to_set() =~= goal);
            }
        },
    }
    proof {
        assert(Seq::<Seq<char>>::empty().to_set() =~= Set::<Seq<char>>::empty());
    }
    normalize_paths(roots)
}

/// The library roots of one storefront root: the root itself plus every
/// path its declaration text contributes; unreadable declaration text
/// contributes nothing.
pub open spec fn library_root_set(root: Seq<char>, vdf_text: Option<Seq<char>>) -> Set<Seq<char>> {
    match vdf_text {
        Some(t) => line_paths(t).to_set().insert(root),
        None => set![root],
    }
}

/// Resolves the library roots of one storefront root, deduplicated and
/// order-normalized.
///
/// `vdf_text` is the content of the root's library declaration file, or
/// nothing when the file was unreadable; either way the owning root itself
/// is always included.
pub fn discover_library_roots(steam_root: &str, vdf_text: &Option<String>) -> (r: Vec<String>)
    ensures
        paths_sorted(r.deep_view()),
        r.deep_view().to_set() == library_root_set(steam_root@, vdf_text.deep_view()),
{
    let mut roots: Vec<String> = Vec::new();
    roots.push(String::from_str(steam_root));
    proof {
        assert(roots.deep_view() =~= Seq::<Seq<char>>::empty().push(steam_root@));
        lemma_to_set_push(Seq::<Seq<char>>::empty(), steam_root@);
        assert(Seq::<Seq<char>>::empty().to_set() =~= Set::<Seq<char>>::empty());
    }
    let ghost base = roots.deep_view();
    if let Some(text) = vdf_text {
        let mut parsed = parse_libraryfolders_paths(text.as_str());
        let ghost parsed_view = parsed.deep_view();
        roots.append(&mut parsed);
        proof {
            assert(roots.deep_view() =~= base + parsed_view);
            lemma_to_set_concat(base, parsed_view);
            assert(roots.deep_view().to_set() =~= library_root_set(
                steam_root@,
                vdf_text.deep_view(),
            ));
        }
    } else {
        proof {
            assert(roots.deep_view().to_set() =~= library_root_set(
                steam_root@,
                vdf_text.deep_view(),
            ));
        }
    }
    normalize_paths(roots)
}

} // verus!
