use vstd::prelude::*;

verus! {

use crate::paths::{SitePath, path_parent};

/// The resolved configuration a run starts from: the project name, the
/// source root, and the directory static assets are served from.
pub struct Config {
    pub name: String,
    pub src: SitePath,
    pub assets: Option<SitePath>,
}

pub open spec fn opt_path_view(o: Option<SitePath>) -> Option<Seq<Seq<char>>> {
    match o {
        Some(p) => Some(p@),
        None => None,
    }
}

impl Config {
    /// Resolves the values read from the configuration file against that
    /// file's canonical location: the declared source directory's last
    /// component is taken relative to the configuration file's directory,
    /// and a missing assets directory falls back to the given default.
    pub fn parse(
        name: String,
        declared_src: &SitePath,
        assets: Option<SitePath>,
        config_file: &SitePath,
        default_assets: SitePath,
    ) -> (r: Config)
        requires
            declared_src@.len() > 0,
        ensures
            r.name == name,
            r.src@ == path_parent(config_file@).push(declared_src@.last()),
            opt_path_view(r.assets) == (match assets {
                Some(a) => Some(a@),
                None => Some(default_assets@),
            }),
    {
        let dir = config_file.parent();
        proof {
            assert(declared_src@.len() == declared_src.parts@.len());
        }
        let last = &declared_src.parts[declared_src.parts.len() - 1];
        proof {
            assert(declared_src@.last() == last@);
        }
        let src = dir.child(last.as_str());
        let resolved_assets = match assets {
            Some(a) => Some(a),
            None => Some(default_assets),
        };
        Config { name, src, assets: resolved_assets }
    }
}

} // verus!
