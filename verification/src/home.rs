//! Resolution of the configuration directory from environment overrides
//! and the home directory, as plain path bytes.

use vstd::prelude::*;

verus! {

/// How the configuration directory is to be obtained.
#[derive(Clone, PartialEq, Eq, Debug)]
pub enum HomeResolution {
    /// An explicit override: the path must be canonicalized, and resolution
    /// fails when it does not exist.
    Canonicalize { path: Vec<u8> },
    /// The default directory under the user's home; not checked for
    /// existence.
    Default { path: Vec<u8> },
    /// No override was set and there is no home directory.
    NotFound,
}

/// Ghost mirror of `HomeResolution`.
pub enum HomeResolutionView {
    Canonicalize { path: Seq<u8> },
    Default { path: Seq<u8> },
    NotFound,
}

impl DeepView for HomeResolution {
    type V = HomeResolutionView;

    open spec fn deep_view(&self) -> HomeResolutionView {
        match self {
            HomeResolution::Canonicalize { path } => (HomeResolutionView::Canonicalize {
                path: path@,
            }),
            HomeResolution::Default { path } => HomeResolutionView::Default { path: path@ },
            HomeResolution::NotFound => HomeResolutionView::NotFound,
        }
    }
}

/// The default directory name appended under the home directory, with its
/// leading path separator: `/.codexx`.
pub open spec fn default_dir_suffix() -> Seq<u8> {
    seq![47u8, 46u8, 99u8, 111u8, 100u8, 101u8, 120u8, 120u8]
}

/// A set, non-empty override value.
pub open spec fn override_usable(v: Option<Seq<u8>>) -> bool {
    v matches Option::Some(p) && p.len() > 0
}

/// Where the configuration directory is: the primary override when set and
/// non-empty, else the secondary override when set and non-empty — both to
/// be canonicalized — else the default directory under home, else nowhere.
pub open spec fn spec_resolve_config_home(
    primary: Option<Seq<u8>>,
    secondary: Option<Seq<u8>>,
    home: Option<Seq<u8>>,
) -> HomeResolutionView {
    if override_usable(primary) {
        HomeResolutionView::Canonicalize { path: primary.unwrap() }
    } else if override_usable(secondary) {
        HomeResolutionView::Canonicalize { path: secondary.unwrap() }
    } else {
        match home {
            Option::Some(h) => HomeResolutionView::Default { path: h + default_dir_suffix() },
            Option::None => HomeResolutionView::NotFound,
        }
    }
}

/// Decide where the configuration directory is. The preferred override
/// wins so a fork stays isolated from an upstream install; the secondary
/// override lets users and tests redirect the default location.
pub fn resolve_config_home(
    primary: Option<Vec<u8>>,
    secondary: Option<Vec<u8>>,
    home: Option<Vec<u8>>,
) -> (r: HomeResolution)
    ensures
        r.deep_view() == spec_resolve_config_home(
            primary.deep_view(),
            secondary.deep_view(),
            home.deep_view(),
        ),
{
    match primary {
        Option::Some(p) => {
            if p.len() > 0 {
                proof {
                    assert(p.deep_view() =~= p@);
                }
                return HomeResolution::Canonicalize { path: p };
            }
        },
        Option::None => {},
    }
    match secondary {
        Option::Some(p) => {
            if p.len() > 0 {
                proof {
                    assert(p.deep_view() =~= p@);
                }
                return HomeResolution::Canonicalize { path: p };
            }
        },
        Option::None => {},
    }
    match home {
        Option::Some(h) => {
            proof {
                assert(h.deep_view() =~= h@);
            }
            let mut path = h;
            let suffix: Vec<u8> = vec![47u8, 46u8, 99u8, 111u8, 100u8, 101u8, 120u8, 120u8];
            let ghost base = path@;
            let mut i: usize = 0;
            proof {
                assert(suffix@ =~= default_dir_suffix());
                assert(path@ =~= base + suffix@.take(0));
            }
            while i < suffix.len()
                invariant
                    i <= suffix@.len(),
                    suffix@ == default_dir_suffix(),
                    path@ == base + suffix@.take(i as int),
                decreases suffix.len() - i,
            {
                path.push(suffix[i]);
                proof {
                    assert(path@ =~= base + suffix@.take(i as int + 1));
                }
                i = i + 1;
            }
            proof {
                assert(suffix@.take(suffix@.len() as int) =~= suffix@);
            }
            HomeResolution::Default { path }
        },
        Option::None => HomeResolution::NotFound,
    }
}

} // verus!
