use vstd::prelude::*;
use vstd::string::*;

use crate::args::{opt_chars, Args, ArgsModel};
use crate::kernel::MuskingumCungeKernel;
use crate::text::{join_path, path_join, str_eq};

verus! {

/// The configuration of a routing run: the directories and files it reads and
/// writes, the internal timestep, the routing kernel and the number of threads.
#[derive(Debug, Clone)]
pub struct Config {
    pub config_dir: String,
    pub csv_dir: String,
    pub gpkg_file: String,
    pub internal_timestep_seconds: usize,
    pub output_dir: String,
    pub kernel: MuskingumCungeKernel,
    pub num_threads: usize,
}

pub struct ConfigModel {
    pub config_dir: Seq<char>,
    pub csv_dir: Seq<char>,
    pub gpkg_file: Seq<char>,
    pub internal_timestep_seconds: nat,
    pub output_dir: Seq<char>,
    pub kernel: MuskingumCungeKernel,
    pub num_threads: nat,
}

impl View for Config {
    type V = ConfigModel;

    open spec fn view(&self) -> ConfigModel {
        ConfigModel {
            config_dir: self.config_dir@,
            csv_dir: self.csv_dir@,
            gpkg_file: self.gpkg_file@,
            internal_timestep_seconds: self.internal_timestep_seconds as nat,
            output_dir: self.output_dir@,
            kernel: self.kernel,
            num_threads: self.num_threads as nat,
        }
    }
}

/// The directories that a command line names, before any of them is looked at.
#[derive(Debug, Clone)]
pub struct DirectoryPlan {
    pub root_dir: String,
    pub csv_dir: String,
    pub config_dir: String,
    pub output_dir: String,
}

pub struct PlanModel {
    pub root_dir: Seq<char>,
    pub csv_dir: Seq<char>,
    pub config_dir: Seq<char>,
    pub output_dir: Seq<char>,
}

impl View for DirectoryPlan {
    type V = PlanModel;

    open spec fn view(&self) -> PlanModel {
        PlanModel {
            root_dir: self.root_dir@,
            csv_dir: self.csv_dir@,
            config_dir: self.config_dir@,
            output_dir: self.output_dir@,
        }
    }
}

/// The inputs default to `<root>/outputs/ngen`, the configuration lies in `<root>/config`
/// and the outputs default to `<root>/outputs/troute`.
pub open spec fn directory_plan(a: ArgsModel) -> PlanModel {
    let root = a.route_dir;
    PlanModel {
        root_dir: root,
        csv_dir: match a.input_dir {
            Some(d) => d,
            None => join_path(join_path(root, "outputs"@), "ngen"@),
        },
        config_dir: join_path(root, "config"@),
        output_dir: match a.output_dir {
            Some(d) => d,
            None => join_path(join_path(root, "outputs"@), "troute"@),
        },
    }
}

/// What the filesystem answered about the planned directories and files.
#[derive(Debug, Clone)]
pub struct FsFacts {
    pub root_is_dir: bool,
    pub csv_is_dir: bool,
    pub config_is_dir: bool,
    pub output_is_dir: bool,
    /// Whether the path given as the hydrofabric exists.
    pub hf_exists: bool,
    /// The names of the entries of the configuration directory, in the order in
    /// which the directory lists them; `None` where it could not be read.
    pub config_entries: Option<Vec<String>>,
}

pub struct FsModel {
    pub root_is_dir: bool,
    pub csv_is_dir: bool,
    pub config_is_dir: bool,
    pub output_is_dir: bool,
    pub hf_exists: bool,
    pub config_entries: Option<Seq<Seq<char>>>,
}

impl View for FsFacts {
    type V = FsModel;

    open spec fn view(&self) -> FsModel {
        FsModel {
            root_is_dir: self.root_is_dir,
            csv_is_dir: self.csv_is_dir,
            config_is_dir: self.config_is_dir,
            output_is_dir: self.output_is_dir,
            hf_exists: self.hf_exists,
            config_entries: match self.config_entries {
                Some(v) => Some(v.deep_view()),
                None => None,
            },
        }
    }
}

/// Why a command line does not give a configuration.
#[derive(Debug)]
pub enum ConfigError {
    RootNotDirectory(String),
    MissingDirectories(Vec<String>),
    HydrofabricNotFound(String),
    ConfigDirUnreadable,
    NoGeopackage,
}

pub enum ConfigFailure {
    RootNotDirectory(Seq<char>),
    MissingDirectories(Seq<Seq<char>>),
    HydrofabricNotFound(Seq<char>),
    ConfigDirUnreadable,
    NoGeopackage,
}

impl View for ConfigError {
    type V = ConfigFailure;

    open spec fn view(&self) -> ConfigFailure {
        match self {
            ConfigError::RootNotDirectory(r) => ConfigFailure::RootNotDirectory(r@),
            ConfigError::MissingDirectories(d) => ConfigFailure::MissingDirectories(d.deep_view()),
            ConfigError::HydrofabricNotFound(h) => ConfigFailure::HydrofabricNotFound(h@),
            ConfigError::ConfigDirUnreadable => ConfigFailure::ConfigDirUnreadable,
            ConfigError::NoGeopackage => ConfigFailure::NoGeopackage,
        }
    }
}

pub open spec fn config_result_view(r: Result<Config, ConfigError>) -> Result<ConfigModel, ConfigFailure> {
    match r {
        Ok(c) => Ok(c@),
        Err(e) => Err(e@),
    }
}

/// The directories that must exist, each with whether it is a directory: the
/// configuration directory only where no hydrofabric file is given.
pub open spec fn checked_dirs(a: ArgsModel, f: FsModel) -> Seq<(Seq<char>, bool)> {
    let p = directory_plan(a);
    if a.hf is Some {
        seq![(p.csv_dir, f.csv_is_dir), (p.output_dir, f.output_is_dir)]
    } else {
        seq![(p.csv_dir, f.csv_is_dir), (p.config_dir, f.config_is_dir), (p.output_dir, f.output_is_dir)]
    }
}

/// The paths of the checks that failed, in order.
pub open spec fn failed_paths(checks: Seq<(Seq<char>, bool)>) -> Seq<Seq<char>>
    decreases checks.len(),
{
    if checks.len() == 0 {
        Seq::empty()
    } else {
        let rest = failed_paths(checks.drop_first());
        if checks[0].1 {
            rest
        } else {
            seq![checks[0].0] + rest
        }
    }
}

/// A file name whose extension (the text after its last `.`, where something stands
/// before that `.`) is `gpkg`.
pub open spec fn is_gpkg_name(name: Seq<char>) -> bool {
    name.len() >= 6 && name.skip(name.len() - 5) == ".gpkg"@
}

/// The first name in the list that is a GeoPackage file name.
pub open spec fn first_gpkg(names: Seq<Seq<char>>) -> Option<Seq<char>>
    decreases names.len(),
{
    if names.len() == 0 {
        None
    } else if is_gpkg_name(names[0]) {
        Some(names[0])
    } else {
        first_gpkg(names.drop_first())
    }
}

/// The configuration that a command line gives, against what the filesystem answered:
/// the route directory must be a directory, then the input, configuration (unless a
/// hydrofabric is given) and output directories must be directories; the hydrofabric
/// given must exist, or else the configuration directory must hold a `.gpkg` file,
/// the first that it lists.
pub open spec fn config_outcome(a: ArgsModel, f: FsModel) -> Result<ConfigModel, ConfigFailure> {
    let p = directory_plan(a);
    let missing = failed_paths(checked_dirs(a, f));
    let gpkg: Result<Seq<char>, ConfigFailure> = match a.hf {
        Some(h) => if f.hf_exists {
            Ok(h)
        } else {
            Err(ConfigFailure::HydrofabricNotFound(h))
        },
        None => match f.config_entries {
            None => Err(ConfigFailure::ConfigDirUnreadable),
            Some(names) => match first_gpkg(names) {
                Some(n) => Ok(join_path(p.config_dir, n)),
                None => Err(ConfigFailure::NoGeopackage),
            },
        },
    };
    if !f.root_is_dir {
        Err(ConfigFailure::RootNotDirectory(p.root_dir))
    } else if missing.len() > 0 {
        Err(ConfigFailure::MissingDirectories(missing))
    } else {
        match gpkg {
            Err(e) => Err(e),
            Ok(g) => Ok(
                ConfigModel {
                    config_dir: p.config_dir,
                    csv_dir: p.csv_dir,
                    gpkg_file: g,
                    internal_timestep_seconds: a.internal_timestep_seconds,
                    output_dir: p.output_dir,
                    kernel: a.kernel,
                    num_threads: a.num_threads,
                },
            ),
        }
    }
}

fn clone_opt(o: &Option<String>) -> (r: Option<String>)
    ensures
        opt_chars(r) == opt_chars(*o),
{
    match o {
        Some(s) => Some(s.clone()),
        None => None,
    }
}

impl Args {
    /// The directories that this command line names.
    pub fn plan_directories(&self) -> (p: DirectoryPlan)
        ensures
            p@ == directory_plan(self@),
    {
        let root = self.route_dir.as_str();
        let outputs = path_join(root, "outputs");
        let csv_dir = match &self.input_dir {
            Some(d) => d.clone(),
            None => path_join(outputs.as_str(), "ngen"),
        };
        let output_dir = match &self.output_dir {
            Some(d) => d.clone(),
            None => path_join(outputs.as_str(), "troute"),
        };
        DirectoryPlan {
            root_dir: self.route_dir.clone(),
            csv_dir,
            config_dir: path_join(root, "config"),
            output_dir,
        }
    }
}

/// Whether `name` is a GeoPackage file name (see `is_gpkg_name`).
pub fn is_gpkg_file_name(name: &str) -> (r: bool)
    ensures
        r == is_gpkg_name(name@),
{
    let n = name.unicode_len();
    if n < 6 {
        return false;
    }
    let suffix = name.substring_char(n - 5, n);
    assert(suffix@ =~= name@.skip(n - 5));
    str_eq(suffix, ".gpkg")
}

/// The first GeoPackage file name in the list.
pub fn find_gpkg(names: &Vec<String>) -> (r: Option<String>)
    ensures
        opt_chars(r) == first_gpkg(names.deep_view()),
{
    let ghost v = names.deep_view();
    assert(v.skip(0) =~= v);
    let mut i: usize = 0;
    while i < names.len()
        invariant
            i <= names@.len(),
            v == names.deep_view(),
            first_gpkg(v) == first_gpkg(v.skip(i as int)),
        decreases names.len() - i,
    {
        assert(v.skip(i as int)[0] == names[i as int]@);
        assert(v.skip(i as int).drop_first() =~= v.skip(i + 1));
        if is_gpkg_file_name(names[i].as_str()) {
            return Some(names[i].clone());
        }
        i = i + 1;
    }
    assert(v.skip(i as int).len() == 0);
    None
}

/// The configuration that a command line gives (see `config_outcome`), from what
/// the filesystem answered about the directories that `args.plan_directories()` names.
pub fn get_args(args: Args, facts: &FsFacts) -> (r: Result<Config, ConfigError>)
    ensures
        config_result_view(r) == config_outcome(args@, facts@),
{
    let plan = args.plan_directories();
    if !facts.root_is_dir {
        return Err(ConfigError::RootNotDirectory(plan.root_dir));
    }
    let ghost checks = checked_dirs(args@, facts@);
    let mut missing: Vec<String> = Vec::new();
    if !facts.csv_is_dir {
        missing.push(plan.csv_dir.clone());
    }
    if args.hf.is_none() && !facts.config_is_dir {
        missing.push(plan.config_dir.clone());
    }
    if !facts.output_is_dir {
        missing.push(plan.output_dir.clone());
    }
    proof {
        reveal_with_fuel(failed_paths, 4);
        assert(missing.deep_view() =~= failed_paths(checks));
    }
    if missing.len() > 0 {
        return Err(ConfigError::MissingDirectories(missing));
    }
    let gpkg_file = match &args.hf {
        Some(h) => {
            if !facts.hf_exists {
                return Err(ConfigError::HydrofabricNotFound(h.clone()));
            }
            h.clone()
        },
        None => match &facts.config_entries {
            None => {
                return Err(ConfigError::ConfigDirUnreadable);
            },
            Some(names) => match find_gpkg(names) {
                Some(n) => path_join(plan.config_dir.as_str(), n.as_str()),
                None => {
                    return Err(ConfigError::NoGeopackage);
                },
            },
        },
    };
    Ok(
        Config {
            config_dir: plan.config_dir,
            csv_dir: plan.csv_dir,
            gpkg_file,
            internal_timestep_seconds: args.internal_timestep_seconds,
            output_dir: plan.output_dir,
            kernel: args.kernel,
            num_threads: args.num_threads,
        },
    )
}

/// The parameters of a run that the routing steps consult: the internal timestep,
/// the kernel and the number of threads.
#[derive(Debug, Clone, Copy)]
pub struct CfgContext {
    pub internal_timestep_seconds: usize,
    pub kernel: MuskingumCungeKernel,
    pub num_threads: usize,
}

/// Joins the strings with `sep` between each two.
pub open spec fn seq_join(parts: Seq<Seq<char>>, sep: Seq<char>) -> Seq<char>
    decreases parts.len(),
{
    if parts.len() == 0 {
        Seq::empty()
    } else if parts.len() == 1 {
        parts[0]
    } else {
        seq_join(parts.drop_last(), sep) + sep + parts.last()
    }
}

/// `parts.join(sep)`.
pub fn join_strings(parts: &Vec<String>, sep: &str) -> (r: String)
    ensures
        r@ == seq_join(parts.deep_view(), sep@),
{
    let ghost v = parts.deep_view();
    let mut r = String::new();
    let mut i: usize = 0;
    while i < parts.len()
        invariant
            i <= parts@.len(),
            v == parts.deep_view(),
            r@ == seq_join(v.take(i as int), sep@),
        decreases parts.len() - i,
    {
        assert(v.take(i + 1).drop_last() =~= v.take(i as int));
        assert(v.take(i + 1).last() == parts[i as int]@);
        if i > 0 {
            r.append(sep);
        } else {
            assert(v.take(1) =~= seq![parts[0]@]);
        }
        r.append(parts[i].as_str());
        i = i + 1;
    }
    assert(v.take(i as int) =~= v);
    r
}

impl CfgContext {
    /// The run parameters of a configuration.
    pub fn from_config(config: &Config) -> (r: CfgContext)
        ensures
            r.internal_timestep_seconds == config.internal_timestep_seconds,
            r.kernel == config.kernel,
            r.num_threads == config.num_threads,
    {
        CfgContext {
            internal_timestep_seconds: config.internal_timestep_seconds,
            kernel: config.kernel,
            num_threads: config.num_threads,
        }
    }

    /// A tag for output file names that tells this run apart from a run with the
    /// defaults. No parameter is marked yet, so there is no tag.
    pub fn flags_identifier(self) -> (r: Option<String>)
        ensures
            r is None,
    {
        let parts: Vec<String> = Vec::new();
        if parts.len() == 0 {
            None
        } else {
            Some(join_strings(&parts, "_"))
        }
    }
}

/// The input directory that a command line names: the one given, or else
/// `<root>/outputs/ngen`.
pub open spec fn input_dir_of(a: ArgsModel) -> Seq<char> {
    match a.input_dir {
        Some(d) => d,
        None => join_path(join_path(a.route_dir, "outputs"@), "ngen"@),
    }
}

/// The output directory that a command line names: the one given, or else
/// `<root>/outputs/troute`.
pub open spec fn output_dir_of(a: ArgsModel) -> Seq<char> {
    match a.output_dir {
        Some(d) => d,
        None => join_path(join_path(a.route_dir, "outputs"@), "troute"@),
    }
}

/// The input and output directories must be directories, whether or not a hydrofabric
/// file is given: where the route directory is one and either of them is not, the
/// configuration fails with the missing directories, and that one among them. The
/// configuration directory `<root>/config` must be one too where no hydrofabric is given.
pub proof fn lemma_required_directories(a: ArgsModel, f: FsModel)
    ensures
        !f.root_is_dir ==> config_outcome(a, f) == Err::<ConfigModel, ConfigFailure>(
            ConfigFailure::RootNotDirectory(a.route_dir),
        ),
        f.root_is_dir && !f.csv_is_dir ==> (config_outcome(a, f) matches Err(ConfigFailure::MissingDirectories(d))
            && d.contains(input_dir_of(a))),
        f.root_is_dir && !f.output_is_dir ==> (config_outcome(a, f) matches Err(ConfigFailure::MissingDirectories(d))
            && d.contains(output_dir_of(a))),
        f.root_is_dir && a.hf is None && !f.config_is_dir ==> (config_outcome(a, f) matches Err(
            ConfigFailure::MissingDirectories(d),
        ) && d.contains(join_path(a.route_dir, "config"@))),
        f.root_is_dir && f.csv_is_dir && f.output_is_dir && (a.hf is Some || f.config_is_dir) ==> !(config_outcome(
            a,
            f,
        ) is Err && config_outcome(a, f)->Err_0 is MissingDirectories),
{
    let p = directory_plan(a);
    let c = checked_dirs(a, f);
    reveal_with_fuel(failed_paths, 4);
    let m = failed_paths(c);
    if a.hf is Some {
        assert(c.drop_first().drop_first() =~= Seq::<(Seq<char>, bool)>::empty());
        assert(failed_paths(c.drop_first()) == failed_paths(seq![(p.output_dir, f.output_is_dir)]));
        if !f.csv_is_dir {
            assert(m[0] == p.csv_dir);
        }
        if !f.output_is_dir {
            let r = failed_paths(c.drop_first());
            assert(r[0] == p.output_dir);
            assert(m[m.len() - 1] == p.output_dir);
        }
    } else {
        let c1 = c.drop_first();
        let c2 = c1.drop_first();
        assert(c2.drop_first() =~= Seq::<(Seq<char>, bool)>::empty());
        if !f.csv_is_dir {
            assert(m[0] == p.csv_dir);
        }
        if !f.output_is_dir {
            assert(failed_paths(c2)[0] == p.output_dir);
            assert(m[m.len() - 1] == p.output_dir);
        }
        if !f.config_is_dir {
            let r1 = failed_paths(c1);
            assert(r1[0] == p.config_dir);
            assert(m[m.len() - r1.len()] == p.config_dir);
        }
    }
}

} // verus!
