use vstd::prelude::*;
use vstd::string::StringExecFns;

use crate::error::{Diagnostic, Error, Severity};
use crate::scrolling::{
    scrolling_from_tree, spec_auto_scroll_of, spec_history_of, spec_multiplier_of,
    validates_to, validation_fails, Scrolling,
};
use crate::tree::{model_wf, TreeValue};

verus! {

/// The validated, strongly-typed configuration, together with every file
/// path that contributed to it.
#[derive(Debug)]
pub struct Config {
    pub scrolling: Scrolling,
    pub config_paths: Vec<String>,
}

impl Config {
    /// The typed settings hold their invariants.
    pub open spec fn wf(&self) -> bool {
        self.scrolling.wf()
    }
}

impl Default for Config {
    /// All-default settings and no contributing files.
    fn default() -> (r: Self)
        ensures
            r.scrolling.multiplier_spec() == 3,
            r.scrolling.auto_scroll_spec(),
            r.scrolling.history_spec() == 10_000,
            r.config_paths@.len() == 0,
            r.wf(),
    {
        Config { scrolling: Scrolling::default(), config_paths: Vec::new() }
    }
}

/// The caller's overrides, applied once after validation: a pure function
/// of the typed configuration and the options.
pub struct Overrides {
    pub multiplier: Option<u8>,
    pub auto_scroll: Option<bool>,
}

/// Modifications after the typed configuration is created: the caller's
/// options override the loaded values.
pub fn after_loading(config: &mut Config, options: &Overrides)
    ensures
        final(config).scrolling.multiplier_spec() == match options.multiplier {
            Some(m) => m,
            None => old(config).scrolling.multiplier_spec(),
        },
        final(config).scrolling.auto_scroll_spec() == match options.auto_scroll {
            Some(a) => a,
            None => old(config).scrolling.auto_scroll_spec(),
        },
        final(config).scrolling.history_spec() == old(config).scrolling.history_spec(),
        final(config).config_paths == old(config).config_paths,
        old(config).wf() ==> final(config).wf(),
{
    match options.multiplier {
        Some(m) => {
            config.scrolling.set_multiplier(m);
        },
        None => {},
    }
    match options.auto_scroll {
        Some(a) => {
            config.scrolling.set_auto_scroll(a);
        },
        None => {},
    }
}

/// Turn a finished load into the typed configuration: validate the merged
/// tree and attach the visited paths; a load failure passes through.
pub fn read_config(loaded: Result<TreeValue, Error>, config_paths: Vec<String>) -> (r: Result<
    Config,
    Error,
>)
    requires
        loaded matches Ok(t) ==> model_wf(t@),
    ensures
        match loaded {
            Ok(t) => {
                &&& r is Ok <==> !validation_fails(t@)
                &&& r matches Ok(c) ==> validates_to(t@, c.scrolling) && c.wf()
                    && c.config_paths@ == config_paths@
                &&& r matches Err(e) ==> (e matches Error::Validation(_))
            },
            Err(e) => r == Err::<Config, Error>(e),
        },
{
    match loaded {
        Ok(tree) => match scrolling_from_tree(&tree) {
            Ok(scrolling) => Ok(Config { scrolling, config_paths }),
            Err(e) => Err(e),
        },
        Err(e) => Err(e),
    }
}

/// `read_config` with the failure also described for the caller's log: a
/// missing root file and any other failure both come back as an error-level
/// diagnostic naming the path.
pub fn load_from(path: &str, loaded: Result<TreeValue, Error>, config_paths: Vec<String>) -> (r: (
    Result<Config, Error>,
    Vec<Diagnostic>,
))
    requires
        loaded matches Ok(t) ==> model_wf(t@),
    ensures
        match loaded {
            Ok(t) => {
                &&& r.0 is Ok <==> !validation_fails(t@)
                &&& r.0 matches Ok(c) ==> validates_to(t@, c.scrolling) && c.wf()
                    && c.config_paths@ == config_paths@
                &&& r.0 matches Err(e) ==> (e matches Error::Validation(_))
            },
            Err(e) => r.0 == Err::<Config, Error>(e),
        },
        r.0 is Ok ==> r.1@.len() == 0,
{
    let r = read_config(loaded, config_paths);
    match &r {
        Ok(_) => (r, Vec::new()),
        Err(e) => {
            let mut diags: Vec<Diagnostic> = Vec::new();
            let text = if e.is_not_found() {
                String::from_str("Unable to load config ").concat(path).concat(
                    ": File not found",
                )
            } else {
                String::from_str("Unable to load config ").concat(path).concat(": ").concat(
                    e.message().as_str(),
                )
            };
            diags.push(Diagnostic { severity: Severity::Error, message: text });
            (r, diags)
        },
    }
}

/// Attempt to reload the configuration file: the full pipeline's outcome is
/// validated and the caller's overrides applied; any failure is propagated,
/// never silently replaced by defaults.
pub fn reload(path: &str, loaded: Result<TreeValue, Error>, config_paths: Vec<String>,
    options: &Overrides) -> (r: (Result<Config, Error>, Vec<Diagnostic>))
    requires
        loaded matches Ok(t) ==> model_wf(t@),
    ensures
        match loaded {
            Ok(t) => {
                &&& r.0 is Ok <==> !validation_fails(t@)
                &&& r.0 matches Ok(c) ==> {
                    &&& c.scrolling.multiplier_spec() == match options.multiplier {
                        Some(m) => m,
                        None => spec_multiplier_of(t@)->Ok_0,
                    }
                    &&& c.scrolling.auto_scroll_spec() == match options.auto_scroll {
                        Some(a) => a,
                        None => spec_auto_scroll_of(t@)->Ok_0,
                    }
                    &&& c.scrolling.history_spec() == spec_history_of(t@)->Ok_0
                    &&& c.wf()
                    &&& c.config_paths@ == config_paths@
                }
                &&& r.0 matches Err(e) ==> (e matches Error::Validation(_))
            },
            Err(e) => r.0 == Err::<Config, Error>(e),
        },
{
    let (loaded_config, diags) = load_from(path, loaded, config_paths);
    match loaded_config {
        Ok(mut config) => {
            after_loading(&mut config, options);
            (Ok(config), diags)
        },
        Err(e) => (Err(e), diags),
    }
}

/// Load the configuration file: a missing or unloadable file degrades to the
/// all-default configuration — recording the explicit path, or the freshly
/// generated one, for reloads — and the caller's overrides always apply.
/// This entry point never fails.
pub fn load(config_path: Option<String>, loaded: Option<Result<TreeValue, Error>>,
    config_paths: Vec<String>, generated_path: Option<String>, options: &Overrides) -> (r:
    Config)
    requires
        loaded is Some <==> config_path is Some,
        loaded matches Some(l) ==> (l matches Ok(t) ==> model_wf(t@)),
    ensures
        r.wf(),
        ({
            let tree = loaded->0->Ok_0@;
            let good = loaded is Some && loaded->0 is Ok && !validation_fails(tree);
            &&& good ==> ({
                &&& r.scrolling.history_spec() == spec_history_of(tree)->Ok_0
                &&& r.scrolling.multiplier_spec() == match options.multiplier {
                    Some(m) => m,
                    None => spec_multiplier_of(tree)->Ok_0,
                }
                &&& r.scrolling.auto_scroll_spec() == match options.auto_scroll {
                    Some(a) => a,
                    None => spec_auto_scroll_of(tree)->Ok_0,
                }
                &&& r.config_paths@ == config_paths@
            })
            &&& !good ==> ({
                &&& r.scrolling.history_spec() == 10_000
                &&& r.scrolling.multiplier_spec() == match options.multiplier {
                    Some(m) => m,
                    None => 3u8,
                }
                &&& r.scrolling.auto_scroll_spec() == match options.auto_scroll {
                    Some(a) => a,
                    None => true,
                }
            })
            &&& (loaded is Some && !good) ==> r.config_paths@ == seq![config_path->0]
            &&& loaded is None ==> r.config_paths@ == match generated_path {
                Some(g) => seq![g],
                None => Seq::<String>::empty(),
            }
        }),
{
    let mut config: Config = match loaded {
        Some(l) => match read_config(l, config_paths) {
            Ok(c) => c,
            Err(_) => {
                let mut c = Config::default();
                match config_path {
                    Some(p) => {
                        c.config_paths.push(p);
                    },
                    None => {},
                }
                proof {
                    assert(c.config_paths@ =~= seq![config_path->0]);
                }
                c
            },
        },
        None => {
            let mut c = Config::default();
            match generated_path {
                Some(g) => {
                    c.config_paths.push(g);
                    proof {
                        assert(c.config_paths@ =~= seq![generated_path->0]);
                    }
                },
                None => {
                    proof {
                        assert(c.config_paths@ =~= Seq::<String>::empty());
                    }
                },
            }
            c
        },
    };
    after_loading(&mut config, options);
    config
}

} // verus!
