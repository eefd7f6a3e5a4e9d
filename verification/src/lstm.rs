use vstd::prelude::*;
use vstd::string::*;

use crate::text::{decimal, decimal_string, first_index_of, index_of_char};

verus! {

/// Why the forcing directory does not name one forcing file.
#[derive(Debug, Clone, Copy, PartialEq, Eq, Structural)]
pub enum ForcingError {
    /// The directory holds this many `.nc` files, not one.
    NotExactlyOne(usize),
}

/// The forcing file of a run: the one `.nc` file of its forcing directory.
pub fn select_forcing_file(mut files: Vec<String>) -> (r: Result<String, ForcingError>)
    ensures
        files@.len() == 1 ==> (r matches Ok(f) && f == files@[0]),
        files@.len() != 1 ==> r == Err::<String, ForcingError>(ForcingError::NotExactlyOne(files@.len() as usize)),
{
    if files.len() != 1 {
        return Err(ForcingError::NotExactlyOne(files.len()));
    }
    Ok(files.remove(0))
}

/// A subdirectory of the catchment configuration directory: its path, and its name
/// where the path has one.
#[derive(Debug, Clone)]
pub struct ConfigSubdir {
    pub path: String,
    pub name: Option<String>,
}

/// What `str::to_lowercase` makes of a text.
pub uninterp spec fn std_lowercase(s: Seq<char>) -> Seq<char>;

/// `str::to_lowercase`: the text with each character replaced by its lowercase form
/// as Unicode defines it; that mapping is named `std_lowercase` and not spelt out.
#[verifier::external_body]
fn lowercase(s: &str) -> (r: String)
    ensures
        r@ == std_lowercase(s@),
{
    s.to_lowercase()
}

/// `t` occurs in `s`.
pub open spec fn contains_seq(s: Seq<char>, t: Seq<char>) -> bool {
    exists|i: int| 0 <= i && i + t.len() <= s.len() && #[trigger] s.subrange(i, i + t.len()) == t
}

/// Whether `t` occurs in `s`.
pub fn contains_str(s: &str, t: &str) -> (r: bool)
    ensures
        r == contains_seq(s@, t@),
{
    let ghost sv = s@;
    let n = s.unicode_len();
    let m = t.unicode_len();
    if m > n {
        assert forall|i: int| 0 <= i && i + m <= n implies #[trigger] sv.subrange(i, i + m) != t@ by {}
        return false;
    }
    let mut i: usize = 0;
    while i <= n - m
        invariant
            n == s@.len(),
            m == t@.len(),
            m <= n,
            i <= n - m + 1,
            forall|j: int| 0 <= j < i ==> #[trigger] s@.subrange(j, j + m) != t@,
        decreases n - i,
    {
        let mut k: usize = 0;
        let mut same = true;
        while k < m
            invariant
                k <= m,
                i + m <= n,
                n == s@.len(),
                m == t@.len(),
                same == (forall|q: int| 0 <= q < k ==> s@[i + q] == t@[q]),
            decreases m - k,
        {
            if s.get_char(i + k) != t.get_char(k) {
                same = false;
            }
            k = k + 1;
        }
        if same {
            assert(s@.subrange(i as int, i + m) =~= t@);
            return true;
        }
        assert(s@.subrange(i as int, i + m) != t@) by {
            let q = choose|q: int| 0 <= q < m && s@[i + q] != t@[q];
            assert(s@.subrange(i as int, i + m)[q] == s@[i + q]);
        }
        i = i + 1;
    }
    false
}

/// A subdirectory holds LSTM configurations where its lowercased name contains `lstm`.
pub open spec fn is_lstm_dir(d: (Seq<char>, Option<Seq<char>>)) -> bool {
    match d.1 {
        Some(n) => contains_seq(std_lowercase(n), "lstm"@),
        None => false,
    }
}

pub open spec fn subdirs_view(dirs: Seq<ConfigSubdir>) -> Seq<(Seq<char>, Option<Seq<char>>)> {
    dirs.map_values(
        |d: ConfigSubdir|
            (
                d.path@,
                match d.name {
                    Some(n) => Some(n@),
                    None => None,
                },
            ),
    )
}

/// The paths of the LSTM subdirectories, in order.
pub open spec fn lstm_paths(dirs: Seq<(Seq<char>, Option<Seq<char>>)>) -> Seq<Seq<char>>
    decreases dirs.len(),
{
    if dirs.len() == 0 {
        Seq::empty()
    } else {
        let rest = lstm_paths(dirs.drop_last());
        if is_lstm_dir(dirs.last()) {
            rest.push(dirs.last().0)
        } else {
            rest
        }
    }
}

/// A subdirectory is taken for an LSTM one by its own name alone: every path selected is
/// that of a subdirectory whose lowercased name contains `lstm`, and every such
/// subdirectory's path is selected.
pub proof fn lemma_lstm_dirs_by_name(dirs: Seq<(Seq<char>, Option<Seq<char>>)>)
    ensures
        forall|p: Seq<char>| #[trigger]
            lstm_paths(dirs).contains(p) ==> exists|j: int|
                0 <= j < dirs.len() && #[trigger] dirs[j].0 == p && (dirs[j].1 matches Some(n) && contains_seq(
                    std_lowercase(n),
                    "lstm"@,
                )),
        forall|j: int|
            0 <= j < dirs.len() && (#[trigger] dirs[j].1 matches Some(n) && contains_seq(std_lowercase(n), "lstm"@))
                ==> lstm_paths(dirs).contains(dirs[j].0),
    decreases dirs.len(),
{
    if dirs.len() > 0 {
        let init = dirs.drop_last();
        lemma_lstm_dirs_by_name(init);
        let rest = lstm_paths(init);
        let last = dirs.last();
        assert forall|p: Seq<char>| #[trigger]
            lstm_paths(dirs).contains(p) implies exists|j: int|
                0 <= j < dirs.len() && #[trigger] dirs[j].0 == p && (dirs[j].1 matches Some(n) && contains_seq(
                    std_lowercase(n),
                    "lstm"@,
                )) by {
            let f = lstm_paths(dirs);
            let m = choose|m: int| 0 <= m < f.len() && f[m] == p;
            if m < rest.len() {
                assert(f[m] == rest[m]);
                assert(rest.contains(p));
                let j = choose|j: int|
                    0 <= j < init.len() && #[trigger] init[j].0 == p && (init[j].1 matches Some(n) && contains_seq(
                        std_lowercase(n),
                        "lstm"@,
                    ));
                assert(dirs[j] == init[j]);
            } else {
                assert(dirs[dirs.len() - 1] == last);
            }
        }
        assert forall|j: int|
            0 <= j < dirs.len() && (#[trigger] dirs[j].1 matches Some(n) && contains_seq(std_lowercase(n), "lstm"@))
                implies lstm_paths(dirs).contains(dirs[j].0) by {
            let f = lstm_paths(dirs);
            if j < dirs.len() - 1 {
                assert(init[j] == dirs[j]);
                assert(rest.contains(dirs[j].0));
                let m = choose|m: int| 0 <= m < rest.len() && rest[m] == dirs[j].0;
                if is_lstm_dir(last) {
                    assert(f[m] == rest[m]);
                }
            } else {
                assert(is_lstm_dir(last));
                assert(f[rest.len() as int] == last.0);
            }
        }
    }
}

/// Only the names of the subdirectories decide which are selected: two listings whose
/// entries have the same names, position by position, select the same positions
/// (each selected path of the one stands at the position of the other's).
pub proof fn lemma_lstm_dirs_same_names(
    d1: Seq<(Seq<char>, Option<Seq<char>>)>,
    d2: Seq<(Seq<char>, Option<Seq<char>>)>,
)
    requires
        d1.len() == d2.len(),
        forall|i: int| 0 <= i < d1.len() ==> #[trigger] d1[i].1 == d2[i].1,
    ensures
        lstm_paths(d1).len() == lstm_paths(d2).len(),
        forall|k: int| 0 <= k < lstm_paths(d1).len() ==> #[trigger] same_position(d1, d2, k),
    decreases d1.len(),
{
    if d1.len() > 0 {
        let i1 = d1.drop_last();
        let i2 = d2.drop_last();
        assert forall|i: int| 0 <= i < i1.len() implies #[trigger] i1[i].1 == i2[i].1 by {
            assert(i1[i] == d1[i]);
            assert(i2[i] == d2[i]);
        }
        lemma_lstm_dirs_same_names(i1, i2);
        let r1 = lstm_paths(i1);
        let r2 = lstm_paths(i2);
        assert(d1.last().1 == d2.last().1);
        assert(is_lstm_dir(d1.last()) == is_lstm_dir(d2.last()));
        assert forall|k: int| 0 <= k < lstm_paths(d1).len() implies #[trigger] same_position(d1, d2, k) by {
            if k < r1.len() {
                assert(same_position(i1, i2, k));
                let i = choose|i: int| 0 <= i < i1.len() && r1[k] == i1[i].0 && r2[k] == i2[i].0;
                assert(d1[i] == i1[i]);
                assert(d2[i] == i2[i]);
                assert(lstm_paths(d1)[k] == r1[k]);
                assert(lstm_paths(d2)[k] == r2[k]);
            } else {
                let i = d1.len() - 1;
                assert(lstm_paths(d1)[k] == d1[i].0);
                assert(lstm_paths(d2)[k] == d2[i].0);
            }
        }
    }
}

/// The `k`-th selected paths of `d1` and of `d2` stand at one same position.
pub open spec fn same_position(
    d1: Seq<(Seq<char>, Option<Seq<char>>)>,
    d2: Seq<(Seq<char>, Option<Seq<char>>)>,
    k: int,
) -> bool {
    exists|i: int| 0 <= i < d1.len() && lstm_paths(d1)[k] == d1[i].0 && lstm_paths(d2)[k] == d2[i].0
}

/// Why the configuration directory does not name one LSTM subdirectory.
#[derive(Debug)]
pub enum LstmDirError {
    /// No subdirectory is an LSTM one; these are the subdirectories that there are.
    NoLstmDir(Vec<String>),
    /// Several subdirectories are LSTM ones.
    SeveralLstmDirs(Vec<String>),
}

/// The LSTM configuration subdirectory: the one subdirectory whose lowercased name
/// contains `lstm`.
pub fn select_lstm_config_dir(dirs: &Vec<ConfigSubdir>) -> (r: Result<String, LstmDirError>)
    ensures
        ({
            let found = lstm_paths(subdirs_view(dirs@));
            &&& found.len() == 1 ==> (r matches Ok(p) && p@ == found[0])
            &&& found.len() == 0 ==> (r matches Err(LstmDirError::NoLstmDir(all)) && all.deep_view()
                == subdirs_view(dirs@).map_values(|d: (Seq<char>, Option<Seq<char>>)| d.0))
            &&& found.len() > 1 ==> (r matches Err(LstmDirError::SeveralLstmDirs(many))
                && many.deep_view() == found)
        }),
{
    let ghost dv = subdirs_view(dirs@);
    let mut found: Vec<String> = Vec::new();
    let mut all: Vec<String> = Vec::new();
    let mut i: usize = 0;
    while i < dirs.len()
        invariant
            i <= dirs@.len(),
            dv == subdirs_view(dirs@),
            found.deep_view() == lstm_paths(dv.take(i as int)),
            all.deep_view() == dv.take(i as int).map_values(|d: (Seq<char>, Option<Seq<char>>)| d.0),
        decreases dirs.len() - i,
    {
        let d = &dirs[i];
        assert(dv.take(i + 1).drop_last() =~= dv.take(i as int));
        assert(dv.take(i + 1).last() == dv[i as int]);
        let is_lstm = match &d.name {
            Some(n) => {
                let low = lowercase(n.as_str());
                proof {
                    reveal_strlit("lstm");
                }
                contains_str(low.as_str(), "lstm")
            },
            None => false,
        };
        assert(dv[i as int].0 == d.path@);
        let ghost prev_all = all.deep_view();
        let ghost prev_found = found.deep_view();
        if is_lstm {
            found.push(d.path.clone());
            assert(found.deep_view() =~= prev_found.push(d.path@));
        }
        all.push(d.path.clone());
        assert(all.deep_view() =~= prev_all.push(d.path@));
        assert(all.deep_view() =~= dv.take(i + 1).map_values(|d: (Seq<char>, Option<Seq<char>>)| d.0));
        assert(found.deep_view() =~= lstm_paths(dv.take(i + 1)));
        i = i + 1;
    }
    assert(dv.take(i as int) =~= dv);
    if found.len() == 0 {
        return Err(LstmDirError::NoLstmDir(all));
    }
    if found.len() > 1 {
        return Err(LstmDirError::SeveralLstmDirs(found));
    }
    Ok(found.remove(0))
}

/// The pieces that `s` falls into when cut at each `c` (`s.split(c)`).
pub open spec fn split_on(s: Seq<char>, c: char) -> Seq<Seq<char>>
    decreases s.len(),
{
    let k = first_index_of(s, c);
    if k >= s.len() {
        seq![s]
    } else {
        seq![s.take(k as int)] + split_on(s.skip(k + 1 as int), c)
    }
}

/// The pieces of `s` cut at each `c` (see `split_on`).
pub fn split_str(s: &str, c: char) -> (r: Vec<String>)
    ensures
        r.deep_view() == split_on(s@, c),
    decreases s@.len(),
{
    let n = s.unicode_len();
    let k = index_of_char(s, c);
    let head = String::from_str(s.substring_char(0, k));
    assert(head@ =~= s@.take(k as int));
    if k >= n {
        assert(head@ =~= s@);
        let mut r: Vec<String> = Vec::new();
        r.push(head);
        assert(r.deep_view() =~= seq![s@]);
        return r;
    }
    let rest = s.substring_char(k + 1, n);
    assert(rest@ =~= s@.skip(k + 1));
    let tail = split_str(rest, c);
    let mut r: Vec<String> = Vec::new();
    r.push(head);
    let mut i: usize = 0;
    while i < tail.len()
        invariant
            i <= tail@.len(),
            r.deep_view() == seq![s@.take(k as int)] + tail.deep_view().take(i as int),
        decreases tail.len() - i,
    {
        let ghost prev = r.deep_view();
        r.push(tail[i].clone());
        assert(r.deep_view() =~= prev.push(tail[i as int]@));
        assert(r.deep_view() =~= seq![s@.take(k as int)] + tail.deep_view().take(i + 1));
        i = i + 1;
    }
    assert(tail.deep_view().take(i as int) =~= tail.deep_view());
    r
}


/// `s` with each occurrence of `from` replaced by `to`, read from left to right,
/// as `str::replace` does for a nonempty `from`.
pub open spec fn replace_all(s: Seq<char>, from: Seq<char>, to: Seq<char>) -> Seq<char>
    recommends
        from.len() > 0,
    decreases s.len(),
{
    if s.len() == 0 || from.len() == 0 {
        s
    } else if from.len() <= s.len() && s.take(from.len() as int) == from {
        to + replace_all(s.skip(from.len() as int), from, to)
    } else {
        seq![s[0]] + replace_all(s.drop_first(), from, to)
    }
}

/// `s.replace(from, to)` for a nonempty `from`.
pub fn replace_str(s: &str, from: &str, to: &str) -> (r: String)
    requires
        from@.len() > 0,
    ensures
        r@ == replace_all(s@, from@, to@),
{
    let n = s.unicode_len();
    let m = from.unicode_len();
    let mut r = String::new();
    let mut i: usize = 0;
    // `start` is where the text not yet copied begins.
    let mut start: usize = 0;
    assert(s@.skip(0) =~= s@);
    assert(r@ + s@.subrange(0, 0) =~= Seq::<char>::empty());
    while i < n
        invariant
            start <= i <= n,
            n == s@.len(),
            m == from@.len(),
            m > 0,
            replace_all(s@, from@, to@) == r@ + s@.subrange(start as int, i as int) + replace_all(
                s@.skip(i as int),
                from@,
                to@,
            ),
        decreases n - i,
    {
        let mut matched = m <= n - i;
        if matched {
            let mut k: usize = 0;
            while k < m
                invariant
                    k <= m,
                    i + m <= n,
                    n == s@.len(),
                    m == from@.len(),
                    matched == (forall|q: int| 0 <= q < k ==> s@[i + q] == from@[q]),
                decreases m - k,
            {
                if s.get_char(i + k) != from.get_char(k) {
                    matched = false;
                }
                k = k + 1;
            }
        }
        let ghost rest = s@.skip(i as int);
        if matched {
            assert(rest.take(m as int) =~= from@);
            assert(rest.skip(m as int) =~= s@.skip(i + m));
            r.append(s.substring_char(start, i));
            r.append(to);
            i = i + m;
            start = i;
            assert(s@.subrange(start as int, i as int) =~= Seq::<char>::empty());
        } else {
            assert(!(m <= rest.len() && rest.take(m as int) == from@)) by {
                if m <= rest.len() && rest.take(m as int) == from@ {
                    let q = choose|q: int| 0 <= q < m && s@[i + q] != from@[q];
                    assert(rest.take(m as int)[q] == s@[i + q]);
                }
            }
            assert(rest.drop_first() =~= s@.skip(i + 1));
            assert(s@.subrange(start as int, i + 1) =~= s@.subrange(start as int, i as int).push(s@[i as int]));
            i = i + 1;
        }
    }
    r.append(s.substring_char(start, n));
    assert(s@.skip(n as int) =~= Seq::<char>::empty());
    r
}

/// The name of a model's directory from the path of its `weights.json`: the third
/// piece from the end of the path cut at each `/` (`<model>/burn/weights.json`).
pub open spec fn weight_dir_name(path: Seq<char>) -> Option<Seq<char>> {
    let p = split_on(path, '/');
    if p.len() >= 3 {
        Some(p[p.len() - 3])
    } else {
        None
    }
}

/// The name of a model's directory from the path of its weights (see `weight_dir_name`).
pub fn weight_dir_name_of(path: &str) -> (r: Option<String>)
    ensures
        match r {
            Some(n) => weight_dir_name(path@) == Some(n@),
            None => weight_dir_name(path@) is None,
        },
{
    let mut parts = split_str(path, '/');
    let n = parts.len();
    if n >= 3 {
        Some(parts.remove(n - 3))
    } else {
        None
    }
}

/// `cat-<id>`: the key of a catchment in the forcing file.
pub open spec fn catchment_key(id: u32) -> Seq<char> {
    "cat-"@ + decimal(id as nat)
}

/// The key of catchment `id` in the forcing file.
pub fn catchment_key_of(id: u32) -> (r: String)
    ensures
        r@ == catchment_key(id),
{
    let mut s = String::from_str("cat-");
    let d = decimal_string(id);
    s.append(d.as_str());
    s
}

/// The LSTM configuration file of catchment `id`: `cat-<id>.yml`.
pub fn lstm_config_file_name(id: u32) -> (r: String)
    ensures
        r@ == catchment_key(id) + ".yml"@,
{
    let mut s = catchment_key_of(id);
    s.append(".yml");
    s
}

/// Lengthens a series of flows to `len` values by repeating its last value (or `fill`,
/// where it is empty); a series at least that long is left as it is.
pub fn pad_flows<T: Copy>(flows: &mut Vec<T>, len: usize, fill: T)
    ensures
        old(flows)@.len() >= len ==> final(flows)@ == old(flows)@,
        old(flows)@.len() < len ==> {
            &&& final(flows)@.len() == len
            &&& final(flows)@.take(old(flows)@.len() as int) == old(flows)@
            &&& forall|i: int| old(flows)@.len() <= i < len ==> #[trigger] final(flows)@[i] == if old(
                flows,
            )@.len() == 0 {
                fill
            } else {
                old(flows)@.last()
            }
        },
{
    let n = flows.len();
    if n < len {
        let last = if n == 0 {
            fill
        } else {
            flows[n - 1]
        };
        while flows.len() < len
            invariant
                n <= flows@.len() <= len,
                flows@.take(n as int) == old(flows)@,
                n == old(flows)@.len(),
                last == if n == 0 {
                    fill
                } else {
                    old(flows)@.last()
                },
                forall|i: int| n <= i < flows@.len() ==> #[trigger] flows@[i] == last,
            decreases len - flows.len(),
        {
            flows.push(last);
            assert(flows@.take(n as int) =~= old(flows)@);
        }
    }
}

} // verus!
