//! The availability decision: whether the target application is installed,
//! judged from what probing the filesystem observed.
//!
//! The host gathers one record per candidate storefront root — whether the
//! root exists, the text of its library declaration file, and which derived
//! manifest marker paths were found present — and the decision here is a
//! pure function of those records.

use vstd::prelude::*;

use crate::errors::ErrorKind;
use crate::paths::appmanifest_path_for_root;
use crate::paths::discover_library_roots;
use crate::paths::library_root_set;
use crate::paths::manifest_path_of;

verus! {

/// What probing one candidate storefront root observed.
pub struct RootScan {
    /// The candidate storefront root this record describes.
    pub root: String,
    /// Whether the root directory exists on disk.
    pub exists: bool,
    /// The content of the root's library declaration file, or nothing when
    /// it was unreadable.
    pub vdf_text: Option<String>,
    /// The manifest marker paths found present on disk under this root.
    pub found_manifests: Vec<String>,
}

/// Whether one scanned root shows the application installed: the root
/// exists and one of its library roots holds a present manifest marker.
pub open spec fn root_scan_hit(s: RootScan) -> bool {
    s.exists && exists|lib: Seq<char>|
        #[trigger] library_root_set(s.root@, s.vdf_text.deep_view()).contains(lib)
            && s.found_manifests.deep_view().contains(manifest_path_of(lib))
}

/// Whether any scanned root shows the application installed.
pub open spec fn some_root_hit(scans: Seq<RootScan>) -> bool {
    exists|i: int| 0 <= i < scans.len() && root_scan_hit(#[trigger] scans[i])
}

/// The installation verdict over a whole scan: no candidate roots at all
/// means the storefront itself is absent; otherwise the application is
/// installed exactly when some scanned root shows a manifest hit.
pub open spec fn installed_of(scans: Seq<RootScan>) -> Result<bool, ErrorKind> {
    if scans.len() == 0 {
        Err(ErrorKind::StorefrontUnavailable)
    } else {
        Ok(some_root_hit(scans))
    }
}

/// The outcome of the availability check: success exactly when a manifest
/// marker was found anywhere.
pub open spec fn availability_of(scans: Seq<RootScan>) -> Result<(), ErrorKind> {
    if scans.len() == 0 {
        Err(ErrorKind::StorefrontUnavailable)
    } else if some_root_hit(scans) {
        Ok(())
    } else {
        Err(ErrorKind::GameUnavailable)
    }
}

/// Decides whether `v` holds a string equal to `x`.
fn vec_contains(v: &Vec<String>, x: &String) -> (r: bool)
    ensures
        r == v.deep_view().contains(x@),
{
    let mut i: usize = 0;
    while i < v.len()
        invariant
            i <= v@.len(),
            forall|k: int| 0 <= k < i ==> v.deep_view()[k] != x@,
        decreases v@.len() - i,
    {
        if v[i] == *x {
            proof {
                assert(v.deep_view()[i as int] == x@);
            }
            return true;
        }
        i += 1;
    }
    false
}

/// Decides from the scan records whether the application is installed.
///
/// With no candidate roots at all the storefront is reported absent; with
/// roots, the answer is exactly whether some root that exists has a library
/// root whose manifest marker path was found present.
pub fn is_rwr_installed(scans: &Vec<RootScan>) -> (r: Result<bool, ErrorKind>)
    ensures
        r == installed_of(scans@),
{
    if scans.len() == 0 {
        return Err(ErrorKind::StorefrontUnavailable);
    }
    let mut i: usize = 0;
    while i < scans.len()
        invariant
            0 < scans@.len(),
            i <= scans@.len(),
            forall|k: int| 0 <= k < i ==> !root_scan_hit(#[trigger] scans@[k]),
        decreases scans@.len() - i,
    {
        let s = &scans[i];
        let ghost sc = scans@[i as int];
        if s.exists {
            let libs = discover_library_roots(s.root.as_str(), &s.vdf_text);
            let mut j: usize = 0;
            while j < libs.len()
                invariant
                    j <= libs@.len(),
                    i < scans@.len(),
                    sc == scans@[i as int],
                    *s == sc,
                    sc.exists,
                    libs.deep_view().to_set() == library_root_set(sc.root@, sc.vdf_text.deep_view()),
                    forall|k: int|
                        0 <= k < j ==> !sc.found_manifests.deep_view().contains(
                            manifest_path_of(#[trigger] libs.deep_view()[k]),
                        ),
                decreases libs@.len() - j,
            {
                let m = appmanifest_path_for_root(libs[j].as_str());
                if vec_contains(&s.found_manifests, &m) {
                    proof {
                        let lib = libs.deep_view()[j as int];
                        assert(libs.deep_view().contains(lib));
                        assert(library_root_set(sc.root@, sc.vdf_text.deep_view()).contains(lib));
                        assert(m@ == manifest_path_of(lib));
                        assert(sc.found_manifests.deep_view().contains(manifest_path_of(lib)));
                        assert(root_scan_hit(sc));
                        assert(some_root_hit(scans@));
                    }
                    return Ok(true);
                }
                j += 1;
            }
            proof {
                assert(!root_scan_hit(sc)) by {
                    if root_scan_hit(sc) {
                        let lib = choose|lib: Seq<char>|
                            #[trigger] library_root_set(
                                sc.root@,
                                sc.vdf_text.deep_view(),
                            ).contains(lib) && sc.found_manifests.deep_view().contains(
                                manifest_path_of(lib),
                            );
                        assert(libs.deep_view().to_set().contains(lib));
                        let k = choose|k: int|
                            0 <= k < libs.deep_view().len() && #[trigger] libs.deep_view()[k]
                                == lib;
                        assert(!sc.found_manifests.deep_view().contains(
                            manifest_path_of(libs.deep_view()[k]),
                        ));
                        assert(false);
                    }
                }
            }
        } else {
            proof {
                assert(!root_scan_hit(sc));
            }
        }
        i += 1;
    }
    proof {
        assert(!some_root_hit(scans@)) by {
            if some_root_hit(scans@) {
                let k = choose|k: int| 0 <= k < scans@.len() && root_scan_hit(#[trigger] scans@[k]);
                assert(!root_scan_hit(scans@[k]));
            }
        }
    }
    Ok(false)
}

/// Checks whether the application can be launched: success exactly when
/// the installation manifest was found somewhere; no candidate roots at all
/// report the storefront absent, and roots without any manifest report the
/// application absent.
pub fn steam_check_rwr_available(scans: &Vec<RootScan>) -> (r: Result<(), ErrorKind>)
    ensures
        r == availability_of(scans@),
{
    match is_rwr_installed(scans) {
        Ok(true) => Ok(()),
        Ok(false) => Err(ErrorKind::GameUnavailable),
        Err(e) => Err(e),
    }
}

} // verus!
