//! Runtime configuration: plugin path lists, the strict key/value config
//! file, and the resolution of environment defaults and file overrides.

use vstd::prelude::*;
use crate::text::{
    chars_eq_str, chars_of, decimal, first_match_from, lemma_first_match_skip, lemma_split_insert_line, match_at, lemma_string_views_push, push_chars,
    push_decimal, push_str, split, split_chars, string_of, string_views, sub_chars, trim,
    trim_chars,
};

verus! {

/// The entries that a lenient plugin path list yields: every piece trimmed,
/// empty pieces left out, in order.
pub open spec fn nonempty_trimmed(pieces: Seq<Seq<char>>) -> Seq<Seq<char>>
    decreases pieces.len(),
{
    if pieces.len() == 0 {
        Seq::empty()
    } else {
        let rest = nonempty_trimmed(pieces.drop_last());
        if trim(pieces.last()).len() == 0 {
            rest
        } else {
            rest.push(trim(pieces.last()))
        }
    }
}

/// The plugin paths of `raw` split at `separator`: nothing for a blank
/// list, else the trimmed non-empty pieces.
pub open spec fn plugin_path_list(raw: Seq<char>, separator: Seq<char>) -> Seq<Seq<char>> {
    if trim(raw).len() == 0 {
        Seq::empty()
    } else {
        nonempty_trimmed(split(raw, separator))
    }
}

/// Splits a plugin path list, trimming entries and skipping empty ones.
pub fn parse_plugin_paths(raw: &str, separator: &str) -> (paths: Vec<String>)
    ensures
        string_views(paths@) == plugin_path_list(raw@, separator@),
{
    let raw_chars = chars_of(raw);
    let trimmed = trim_chars(&raw_chars);
    if trimmed.len() == 0 {
        let empty: Vec<String> = Vec::new();
        assert(string_views(empty@) =~= Seq::<Seq<char>>::empty());
        return empty;
    }
    let sep = chars_of(separator);
    let pieces = split_chars(&raw_chars, &sep);
    let ghost ps = split(raw@, separator@);
    let mut paths: Vec<String> = Vec::new();
    let mut i: usize = 0;
    assert(ps.take(0) =~= Seq::<Seq<char>>::empty());
    assert(string_views(paths@) =~= nonempty_trimmed(ps.take(0)));
    while i < pieces.len()
        invariant
            i <= pieces.len(),
            pieces@.len() == ps.len(),
            forall|k: int| 0 <= k < ps.len() ==> #[trigger] pieces@[k]@ == ps[k],
            string_views(paths@) == nonempty_trimmed(ps.take(i as int)),
        decreases pieces.len() - i,
    {
        let t = trim_chars(&pieces[i]);
        assert(ps.take(i + 1).drop_last() =~= ps.take(i as int));
        assert(ps.take(i + 1).last() == ps[i as int]);
        if t.len() > 0 {
            let s = string_of(&t);
            proof {
                lemma_string_views_push(paths@, s);
            }
            paths.push(s);
        }
        i = i + 1;
    }
    assert(ps.take(i as int) =~= ps);
    paths
}

/// Index of the first piece at or after `i` that is blank after trimming,
/// or -1.
pub open spec fn first_blank_from(pieces: Seq<Seq<char>>, i: int) -> int
    decreases pieces.len() - i,
{
    if i < 0 || i >= pieces.len() {
        -1
    } else if trim(pieces[i]).len() == 0 {
        i
    } else {
        first_blank_from(pieces, i + 1)
    }
}

proof fn lemma_first_blank_skip(pieces: Seq<Seq<char>>, i: int)
    requires
        0 <= i <= pieces.len(),
        forall|j: int| 0 <= j < i ==> trim(#[trigger] pieces[j]).len() > 0,
    ensures
        first_blank_from(pieces, 0) == first_blank_from(pieces, i),
    decreases i,
{
    if i > 0 {
        lemma_first_blank_skip_from(pieces, 0, i);
    }
}

proof fn lemma_first_blank_skip_from(pieces: Seq<Seq<char>>, s: int, i: int)
    requires
        0 <= s <= i <= pieces.len(),
        forall|j: int| s <= j < i ==> trim(#[trigger] pieces[j]).len() > 0,
    ensures
        first_blank_from(pieces, s) == first_blank_from(pieces, i),
    decreases i - s,
{
    if s < i {
        assert(trim(pieces[s]).len() > 0);
        lemma_first_blank_skip_from(pieces, s + 1, i);
    }
}

/// What the strict plugin path list of a config file yields: nothing for a
/// blank value; else, pieces separated by `;`, each trimmed, where a blank
/// piece is refused with its one-based position.
pub open spec fn strict_plugin_path_list(raw: Seq<char>) -> Result<Seq<Seq<char>>, nat> {
    if trim(raw).len() == 0 {
        Ok(Seq::empty())
    } else {
        let pieces = split(raw, seq![';']);
        let b = first_blank_from(pieces, 0);
        if b >= 0 {
            Err((b + 1) as nat)
        } else {
            Ok(Seq::new(pieces.len(), |i: int| trim(pieces[i])))
        }
    }
}

/// Why a runtime config file was refused.
#[derive(Clone, Debug)]
pub enum ConfigError {
    /// A non-blank, non-comment line without `=`; holds the trimmed line.
    InvalidLine(String),
    /// A value that is not a double-quoted string; holds the trimmed value.
    UnquotedValue(String),
    /// `http_listen_addr` given twice.
    DuplicateHttpListenAddr,
    /// `http_listen_addr` not a socket address.
    InvalidHttpListenAddr,
    /// `plugin_paths` given twice.
    DuplicatePluginPaths,
    /// A key other than the two known ones; holds the trimmed key.
    UnknownKey(String),
    /// A blank entry in `plugin_paths`; holds its one-based position.
    EmptyPluginPathEntry(usize),
}

/// Parses the strict plugin path list of a config file.
pub fn parse_plugin_paths_strict(raw: &str) -> (r: Result<Vec<String>, ConfigError>)
    ensures
        match strict_plugin_path_list(raw@) {
            Ok(p) => r matches Ok(v) && string_views(v@) == p,
            Err(n) => r matches Err(ConfigError::EmptyPluginPathEntry(m)) && m == n,
        },
{
    let raw_chars = chars_of(raw);
    let trimmed = trim_chars(&raw_chars);
    if trimmed.len() == 0 {
        let empty: Vec<String> = Vec::new();
        assert(string_views(empty@) =~= Seq::<Seq<char>>::empty());
        return Ok(empty);
    }
    let mut sep: Vec<char> = Vec::new();
    sep.push(';');
    assert(sep@ =~= seq![';']);
    let pieces = split_chars(&raw_chars, &sep);
    let ghost ps = split(raw@, seq![';']);
    let mut paths: Vec<String> = Vec::new();
    let mut i: usize = 0;
    assert(string_views(paths@) =~= Seq::new(0, |k: int| trim(ps[k])));
    while i < pieces.len()
        invariant
            i <= pieces.len(),
            pieces@.len() == ps.len(),
            forall|k: int| 0 <= k < ps.len() ==> #[trigger] pieces@[k]@ == ps[k],
            forall|k: int| 0 <= k < i ==> trim(#[trigger] ps[k]).len() > 0,
            ps == split(raw@, seq![';']),
            trim(raw@).len() != 0,
            string_views(paths@) == Seq::new(i as nat, |k: int| trim(ps[k])),
        decreases pieces.len() - i,
    {
        let t = trim_chars(&pieces[i]);
        if t.len() == 0 {
            proof {
                assert(pieces@[i as int]@ == ps[i as int]);
                assert(trim(ps[i as int]).len() == 0);
                lemma_first_blank_skip(ps, i as int);
                assert(first_blank_from(ps, i as int) == i);
                assert(trim(raw@).len() != 0);
                assert(strict_plugin_path_list(raw@) == Err::<Seq<Seq<char>>, nat>((i + 1) as nat));
            }
            return Err(ConfigError::EmptyPluginPathEntry(i + 1));
        }
        let s = string_of(&t);
        proof {
            lemma_string_views_push(paths@, s);
        }
        paths.push(s);
        i = i + 1;
        assert(string_views(paths@) =~= Seq::new(i as nat, |k: int| trim(ps[k])));
    }
    proof {
        lemma_first_blank_skip(ps, i as int);
    }
    Ok(paths)
}

/// The inside of a double-quoted value: `Some` exactly when `input` starts
/// with `"` and what follows that quote ends with `"`.
pub open spec fn unquote(input: Seq<char>) -> Option<Seq<char>> {
    if input.len() >= 2 && input[0] == '"' && input.last() == '"' {
        Some(input.subrange(1, input.len() - 1))
    } else {
        None
    }
}

/// Strips the double quotes around a config value.
pub fn parse_config_value(input: &str) -> (r: Result<String, ConfigError>)
    ensures
        match unquote(input@) {
            Some(v) => r matches Ok(s) && s@ == v,
            None => r matches Err(ConfigError::UnquotedValue(s)) && s@ == input@,
        },
{
    let cs = chars_of(input);
    let n = cs.len();
    if n >= 2 && cs[0] == '"' && cs[n - 1] == '"' {
        let inner = sub_chars(&cs, 1, n - 1);
        Ok(string_of(&inner))
    } else {
        Err(ConfigError::UnquotedValue(input.to_owned()))
    }
}

} // verus!

verus! {

/// Settings that a runtime config file overrides.
#[derive(Debug)]
pub struct RuntimeOverrides {
    pub http_listen_addr: Option<String>,
    pub plugin_paths: Option<Vec<String>>,
}

/// The abstract content of [`RuntimeOverrides`].
pub struct OverridesModel {
    pub http_listen_addr: Option<Seq<char>>,
    pub plugin_paths: Option<Seq<Seq<char>>>,
}

/// The abstract content of [`ConfigError`].
pub enum ConfigErrorModel {
    InvalidLine(Seq<char>),
    UnquotedValue(Seq<char>),
    DuplicateHttpListenAddr,
    InvalidHttpListenAddr,
    DuplicatePluginPaths,
    UnknownKey(Seq<char>),
    EmptyPluginPathEntry(nat),
}

impl RuntimeOverrides {
    pub open spec fn model(&self) -> OverridesModel {
        OverridesModel {
            http_listen_addr: match self.http_listen_addr {
                Some(s) => Some(s@),
                None => None,
            },
            plugin_paths: match self.plugin_paths {
                Some(v) => Some(string_views(v@)),
                None => None,
            },
        }
    }
}

impl ConfigError {
    pub open spec fn model(&self) -> ConfigErrorModel {
        match self {
            ConfigError::InvalidLine(s) => ConfigErrorModel::InvalidLine(s@),
            ConfigError::UnquotedValue(s) => ConfigErrorModel::UnquotedValue(s@),
            ConfigError::DuplicateHttpListenAddr => ConfigErrorModel::DuplicateHttpListenAddr,
            ConfigError::InvalidHttpListenAddr => ConfigErrorModel::InvalidHttpListenAddr,
            ConfigError::DuplicatePluginPaths => ConfigErrorModel::DuplicatePluginPaths,
            ConfigError::UnknownKey(s) => ConfigErrorModel::UnknownKey(s@),
            ConfigError::EmptyPluginPathEntry(n) => ConfigErrorModel::EmptyPluginPathEntry(
                *n as nat,
            ),
        }
    }
}

/// The lines of a config file. (`str::lines` also drops a trailing empty
/// piece and a `\r` before each `\n`; every line is trimmed and blank lines
/// are skipped, so neither difference changes the outcome.)
pub open spec fn config_lines(content: Seq<char>) -> Seq<Seq<char>> {
    split(content, seq!['\n'])
}

/// What one config line asks for, given the overrides read so far.
pub enum LineVerdict {
    /// Blank or comment line.
    Skip,
    /// The file is refused.
    Fail(ConfigErrorModel),
    /// `http_listen_addr` (also written `listen_addr`) set for the first
    /// time, to a value whose address syntax is still to be checked.
    ListenAddr(Seq<char>),
    /// `plugin_paths` set for the first time.
    PluginPaths(Seq<Seq<char>>),
}

/// The verdict on the raw line `raw`: trimmed; skipped when blank or a `#`
/// comment; split at its first `=` into a trimmed key and a trimmed value,
/// which must be double-quoted; then dispatched on the key.
pub open spec fn classify_line(acc: OverridesModel, raw: Seq<char>) -> LineVerdict {
    let line = trim(raw);
    if line.len() == 0 || line[0] == '#' {
        LineVerdict::Skip
    } else {
        let k = first_match_from(line, seq!['='], 0);
        if k < 0 {
            LineVerdict::Fail(ConfigErrorModel::InvalidLine(line))
        } else {
            let key = trim(line.subrange(0, k));
            let raw_value = trim(line.subrange(k + 1, line.len() as int));
            match unquote(raw_value) {
                None => LineVerdict::Fail(ConfigErrorModel::UnquotedValue(raw_value)),
                Some(value) => if key == "http_listen_addr"@ || key == "listen_addr"@ {
                    if acc.http_listen_addr is Some {
                        LineVerdict::Fail(ConfigErrorModel::DuplicateHttpListenAddr)
                    } else {
                        LineVerdict::ListenAddr(value)
                    }
                } else if key == "plugin_paths"@ {
                    if acc.plugin_paths is Some {
                        LineVerdict::Fail(ConfigErrorModel::DuplicatePluginPaths)
                    } else {
                        match strict_plugin_path_list(value) {
                            Err(n) => LineVerdict::Fail(ConfigErrorModel::EmptyPluginPathEntry(n)),
                            Ok(p) => LineVerdict::PluginPaths(p),
                        }
                    }
                } else {
                    LineVerdict::Fail(ConfigErrorModel::UnknownKey(key))
                },
            }
        }
    }
}

/// Where reading lines `i..` from `acc` stops.
pub enum ScanModel {
    /// The whole file was read, or it was refused.
    Finished(Result<OverridesModel, ConfigErrorModel>),
    /// Line `at` sets `http_listen_addr` to a value whose syntax must be
    /// checked before reading on; `acc` is what was read before it.
    NeedsCheck(OverridesModel, int, Seq<char>),
}

/// Reads `lines[i..]` in order, stopping at the first refusal or at the
/// first listen address to check.
pub open spec fn scan_lines(acc: OverridesModel, lines: Seq<Seq<char>>, i: int) -> ScanModel
    decreases lines.len() - i,
{
    if i < 0 || i >= lines.len() {
        ScanModel::Finished(Ok(acc))
    } else {
        match classify_line(acc, lines[i]) {
            LineVerdict::Skip => scan_lines(acc, lines, i + 1),
            LineVerdict::Fail(e) => ScanModel::Finished(Err(e)),
            LineVerdict::ListenAddr(v) => ScanModel::NeedsCheck(acc, i, v),
            LineVerdict::PluginPaths(p) => scan_lines(
                OverridesModel { plugin_paths: Some(p), ..acc },
                lines,
                i + 1,
            ),
        }
    }
}

/// Nothing read yet.
pub open spec fn no_overrides() -> OverridesModel {
    OverridesModel { http_listen_addr: None, plugin_paths: None }
}

/// The `http_listen_addr` value whose socket address syntax decides the
/// outcome of reading the lines `lines`, if reading gets that far.
pub open spec fn lines_candidate(lines: Seq<Seq<char>>) -> Option<Seq<char>> {
    match scan_lines(no_overrides(), lines, 0) {
        ScanModel::NeedsCheck(_, _, v) => Some(v),
        ScanModel::Finished(_) => None,
    }
}

/// The outcome of reading the lines `lines`, where `addr_valid` says
/// whether [`lines_candidate`] parses as a socket address.
pub open spec fn lines_outcome(lines: Seq<Seq<char>>, addr_valid: bool) -> Result<
    OverridesModel,
    ConfigErrorModel,
> {
    match scan_lines(no_overrides(), lines, 0) {
        ScanModel::Finished(r) => r,
        ScanModel::NeedsCheck(acc, i, v) => if !addr_valid {
            Err(ConfigErrorModel::InvalidHttpListenAddr)
        } else {
            match scan_lines(OverridesModel { http_listen_addr: Some(v), ..acc }, lines, i + 1) {
                ScanModel::Finished(r) => r,
                ScanModel::NeedsCheck(_, _, _) => Err(ConfigErrorModel::DuplicateHttpListenAddr),
            }
        },
    }
}

/// The `http_listen_addr` value whose socket address syntax decides the
/// outcome of reading `content`, if reading gets that far.
pub open spec fn listen_addr_candidate(content: Seq<char>) -> Option<Seq<char>> {
    lines_candidate(config_lines(content))
}

/// The outcome of reading the config file `content`, where `addr_valid`
/// says whether [`listen_addr_candidate`] parses as a socket address.
pub open spec fn config_outcome(content: Seq<char>, addr_valid: bool) -> Result<
    OverridesModel,
    ConfigErrorModel,
> {
    lines_outcome(config_lines(content), addr_valid)
}

proof fn lemma_scan_no_check_once_set(acc: OverridesModel, lines: Seq<Seq<char>>, i: int)
    requires
        acc.http_listen_addr is Some,
    ensures
        scan_lines(acc, lines, i) is Finished,
    decreases lines.len() - i,
{
    if 0 <= i < lines.len() {
        match classify_line(acc, lines[i]) {
            LineVerdict::Skip => lemma_scan_no_check_once_set(acc, lines, i + 1),
            LineVerdict::PluginPaths(p) => lemma_scan_no_check_once_set(
                OverridesModel { plugin_paths: Some(p), ..acc },
                lines,
                i + 1,
            ),
            _ => {},
        }
    }
}

proof fn lemma_scan_check_index(acc: OverridesModel, lines: Seq<Seq<char>>, s: int)
    requires
        0 <= s,
    ensures
        scan_lines(acc, lines, s) matches ScanModel::NeedsCheck(_, i, _) ==> s <= i < lines.len(),
    decreases lines.len() - s,
{
    if 0 <= s < lines.len() {
        match classify_line(acc, lines[s]) {
            LineVerdict::Skip => lemma_scan_check_index(acc, lines, s + 1),
            LineVerdict::PluginPaths(p) => lemma_scan_check_index(
                OverridesModel { plugin_paths: Some(p), ..acc },
                lines,
                s + 1,
            ),
            _ => {},
        }
    }
}

enum LineExec {
    Skip,
    Fail(ConfigError),
    ListenAddr(String),
    PluginPaths(Vec<String>),
}

impl LineExec {
    spec fn model(&self) -> LineVerdict {
        match self {
            LineExec::Skip => LineVerdict::Skip,
            LineExec::Fail(e) => LineVerdict::Fail(e.model()),
            LineExec::ListenAddr(s) => LineVerdict::ListenAddr(s@),
            LineExec::PluginPaths(v) => LineVerdict::PluginPaths(string_views(v@)),
        }
    }
}

fn classify_line_exec(acc: &RuntimeOverrides, raw: &Vec<char>) -> (r: LineExec)
    ensures
        r.model() == classify_line(acc.model(), raw@),
{
    let line = trim_chars(raw);
    let n = line.len();
    if n == 0 || line[0] == '#' {
        return LineExec::Skip;
    }
    let mut k: usize = 0;
    while k < n && line[k] != '='
        invariant
            n == line.len(),
            k <= n,
            forall|j: int| 0 <= j < k ==> !match_at(line@, seq!['='], j),
        decreases n - k,
    {
        assert(line@.subrange(k as int, k + 1)[0] == line@[k as int]);
        k = k + 1;
    }
    proof {
        lemma_first_match_skip(line@, seq!['='], 0, k as int);
    }
    if k == n {
        assert(first_match_from(line@, seq!['='], n as int) == -1);
        return LineExec::Fail(ConfigError::InvalidLine(string_of(&line)));
    }
    assert(line@.subrange(k as int, k + 1) =~= seq!['=']);
    assert(first_match_from(line@, seq!['='], k as int) == k);
    let key_raw = sub_chars(&line, 0, k);
    let key = trim_chars(&key_raw);
    let value_raw = sub_chars(&line, k + 1, n);
    let value_chars = trim_chars(&value_raw);
    let value_text = string_of(&value_chars);
    let value = match parse_config_value(value_text.as_str()) {
        Ok(v) => v,
        Err(e) => {
            return LineExec::Fail(e);
        },
    };
    if chars_eq_str(&key, "http_listen_addr") || chars_eq_str(&key, "listen_addr") {
        if acc.http_listen_addr.is_some() {
            return LineExec::Fail(ConfigError::DuplicateHttpListenAddr);
        }
        return LineExec::ListenAddr(value);
    }
    if chars_eq_str(&key, "plugin_paths") {
        if acc.plugin_paths.is_some() {
            return LineExec::Fail(ConfigError::DuplicatePluginPaths);
        }
        return match parse_plugin_paths_strict(value.as_str()) {
            Ok(p) => LineExec::PluginPaths(p),
            Err(e) => LineExec::Fail(e),
        };
    }
    LineExec::Fail(ConfigError::UnknownKey(string_of(&key)))
}

enum ScanExec {
    Finished(Result<RuntimeOverrides, ConfigError>),
    NeedsCheck(RuntimeOverrides, usize, String),
}

impl ScanExec {
    spec fn model(&self) -> ScanModel {
        match self {
            ScanExec::Finished(Ok(o)) => ScanModel::Finished(Ok(o.model())),
            ScanExec::Finished(Err(e)) => ScanModel::Finished(Err(e.model())),
            ScanExec::NeedsCheck(o, i, v) => ScanModel::NeedsCheck(o.model(), *i as int, v@),
        }
    }
}

fn scan_lines_exec(init: RuntimeOverrides, lines: &Vec<Vec<char>>, start: usize) -> (r: ScanExec)
    requires
        start <= lines.len(),
    ensures
        r.model() == scan_lines(init.model(), crate::text::views(lines@), start as int),
    decreases lines.len() - start,
{
    let ghost ls = crate::text::views(lines@);
    let ghost target = scan_lines(init.model(), ls, start as int);
    let mut acc = init;
    let mut i = start;
    while i < lines.len()
        invariant
            start <= i <= lines.len(),
            ls == crate::text::views(lines@),
            scan_lines(acc.model(), ls, i as int) == target,
            target == scan_lines(init.model(), ls, start as int),
        decreases lines.len() - i,
    {
        assert(ls[i as int] == lines@[i as int]@);
        let verdict = classify_line_exec(&acc, &lines[i]);
        assert(scan_lines(acc.model(), ls, i as int) == match verdict.model() {
            LineVerdict::Skip => scan_lines(acc.model(), ls, i + 1),
            LineVerdict::Fail(e) => ScanModel::Finished(Err(e)),
            LineVerdict::ListenAddr(v) => ScanModel::NeedsCheck(acc.model(), i as int, v),
            LineVerdict::PluginPaths(p) => scan_lines(
                OverridesModel { plugin_paths: Some(p), ..acc.model() },
                ls,
                i + 1,
            ),
        });
        match verdict {
            LineExec::Skip => {},
            LineExec::Fail(e) => {
                return ScanExec::Finished(Err(e));
            },
            LineExec::ListenAddr(v) => {
                return ScanExec::NeedsCheck(acc, i, v);
            },
            LineExec::PluginPaths(p) => {
                acc = RuntimeOverrides { http_listen_addr: acc.http_listen_addr, plugin_paths: Some(p) };
            },
        }
        i = i + 1;
    }
    ScanExec::Finished(Ok(acc))
}

} // verus!

verus! {

fn config_lines_exec(content: &str) -> (lines: Vec<Vec<char>>)
    ensures
        crate::text::views(lines@) == config_lines(content@),
{
    let cs = chars_of(content);
    let mut nl: Vec<char> = Vec::new();
    nl.push('\n');
    assert(nl@ =~= seq!['\n']);
    split_chars(&cs, &nl)
}

/// The `http_listen_addr` value whose socket address syntax the reading of
/// `content` depends on, if any (see [`parse_config_text`]).
pub fn listen_addr_to_check(content: &str) -> (r: Option<String>)
    ensures
        match listen_addr_candidate(content@) {
            Some(v) => r matches Some(s) && s@ == v,
            None => r is None,
        },
{
    let lines = config_lines_exec(content);
    let init = RuntimeOverrides { http_listen_addr: None, plugin_paths: None };
    assert(init.model() == no_overrides());
    match scan_lines_exec(init, &lines, 0) {
        ScanExec::NeedsCheck(_, _, v) => Some(v),
        ScanExec::Finished(_) => None,
    }
}

/// Reads a strict runtime config file. `listen_addr_valid` tells whether
/// the value that [`listen_addr_to_check`] returns parses as a socket
/// address; it is not read when that function returns `None`.
pub fn parse_config_text(content: &str, listen_addr_valid: bool) -> (r: Result<
    RuntimeOverrides,
    ConfigError,
>)
    ensures
        match config_outcome(content@, listen_addr_valid) {
            Ok(m) => r matches Ok(o) && o.model() == m,
            Err(e) => r matches Err(x) && x.model() == e,
        },
{
    let lines = config_lines_exec(content);
    let init = RuntimeOverrides { http_listen_addr: None, plugin_paths: None };
    assert(init.model() == no_overrides());
    proof {
        lemma_scan_check_index(no_overrides(), crate::text::views(lines@), 0);
    }
    match scan_lines_exec(init, &lines, 0) {
        ScanExec::Finished(r) => r,
        ScanExec::NeedsCheck(acc, i, v) => {
            if !listen_addr_valid {
                return Err(ConfigError::InvalidHttpListenAddr);
            }
            let next = RuntimeOverrides { http_listen_addr: Some(v), plugin_paths: acc.plugin_paths };
            let ghost m = next.model();
            proof {
                lemma_scan_no_check_once_set(m, crate::text::views(lines@), i + 1);
            }
            match scan_lines_exec(next, &lines, i + 1) {
                ScanExec::Finished(r) => r,
                ScanExec::NeedsCheck(_, _, _) => Err(ConfigError::DuplicateHttpListenAddr),
            }
        },
    }
}

/// The text of an error message.
pub open spec fn config_error_text(e: ConfigErrorModel, path: Seq<char>) -> Seq<char> {
    match e {
        ConfigErrorModel::InvalidLine(line) => "invalid config line: "@ + line,
        ConfigErrorModel::UnquotedValue(v) => "config values must be quoted strings: "@ + v,
        ConfigErrorModel::DuplicateHttpListenAddr => "duplicate http_listen_addr in config file: "@
            + path,
        ConfigErrorModel::InvalidHttpListenAddr => "invalid http_listen_addr value in "@ + path,
        ConfigErrorModel::DuplicatePluginPaths => "duplicate plugin_paths in config file: "@ + path,
        ConfigErrorModel::UnknownKey(k) => "unknown config key "@ + k + " in "@ + path,
        ConfigErrorModel::EmptyPluginPathEntry(n) => "invalid empty plugin path entry at position "@
            + decimal(n),
    }
}

impl ConfigError {
    /// The message that reports this error for the config file at `path`.
    pub fn message(&self, path: &str) -> (s: String)
        ensures
            s@ == config_error_text(self.model(), path@),
    {
        let mut out: Vec<char> = Vec::new();
        match self {
            ConfigError::InvalidLine(line) => {
                push_str(&mut out, "invalid config line: ");
                push_chars(&mut out, &chars_of(line.as_str()));
            },
            ConfigError::UnquotedValue(v) => {
                push_str(&mut out, "config values must be quoted strings: ");
                push_chars(&mut out, &chars_of(v.as_str()));
            },
            ConfigError::DuplicateHttpListenAddr => {
                push_str(&mut out, "duplicate http_listen_addr in config file: ");
                push_chars(&mut out, &chars_of(path));
            },
            ConfigError::InvalidHttpListenAddr => {
                push_str(&mut out, "invalid http_listen_addr value in ");
                push_chars(&mut out, &chars_of(path));
            },
            ConfigError::DuplicatePluginPaths => {
                push_str(&mut out, "duplicate plugin_paths in config file: ");
                push_chars(&mut out, &chars_of(path));
            },
            ConfigError::UnknownKey(k) => {
                push_str(&mut out, "unknown config key ");
                push_chars(&mut out, &chars_of(k.as_str()));
                push_str(&mut out, " in ");
                push_chars(&mut out, &chars_of(path));
            },
            ConfigError::EmptyPluginPathEntry(n) => {
                push_str(&mut out, "invalid empty plugin path entry at position ");
                push_decimal(*n as u64, &mut out);
            },
        }
        assert(out@ =~= config_error_text(self.model(), path@));
        string_of(&out)
    }
}

} // verus!

verus! {

/// Runtime configuration derived from environment and optional config file.
#[derive(Clone, Debug)]
pub struct RuntimeConfig {
    /// Address where the HTTP proxy listens for downstream connections.
    pub http_listen_addr: String,
    /// Address of the TCP proxy listener.
    pub tcp_listen_addr: String,
    /// Address of the UDP proxy listener.
    pub udp_listen_addr: String,
    /// Plugin library files or directories to load at startup.
    pub plugin_paths: Vec<String>,
}

/// The view of an optional setting, or `default` when it is absent.
pub open spec fn setting_or(v: Option<String>, default: Seq<char>) -> Seq<char> {
    match v {
        Some(s) => s@,
        None => default,
    }
}

fn string_or(v: Option<String>, default: &str) -> (s: String)
    ensures
        s@ == setting_or(v, default@),
{
    match v {
        Some(s) => s,
        None => String::from_str(default),
    }
}

impl RuntimeConfig {
    /// Resolves the configuration from the values of `VAKIL_HTTP_LISTEN_ADDR`,
    /// `VAKIL_TCP_LISTEN_ADDR`, `VAKIL_UDP_LISTEN_ADDR`, `VAKIL_PLUGIN_PATHS`
    /// and `VAKIL_PATH_SEP` (`None` where unset) and the overrides read from
    /// the file that `VAKIL_CONFIG` names, if any. The file's listen address
    /// and plugin paths win over the environment.
    pub fn from_settings(
        http_listen_addr: Option<String>,
        tcp_listen_addr: Option<String>,
        udp_listen_addr: Option<String>,
        plugin_paths: Option<String>,
        path_sep: Option<String>,
        overrides: Option<RuntimeOverrides>,
    ) -> (c: RuntimeConfig)
        ensures
            c.tcp_listen_addr@ == setting_or(tcp_listen_addr, "127.0.0.1:12346"@),
            c.udp_listen_addr@ == setting_or(udp_listen_addr, "127.0.0.1:12347"@),
            c.http_listen_addr@ == match overrides {
                Some(RuntimeOverrides { http_listen_addr: Some(a), .. }) => a@,
                _ => setting_or(http_listen_addr, "127.0.0.1:12345"@),
            },
            string_views(c.plugin_paths@) == match overrides {
                Some(RuntimeOverrides { plugin_paths: Some(p), .. }) => string_views(p@),
                _ => plugin_path_list(
                    setting_or(plugin_paths, Seq::empty()),
                    setting_or(path_sep, ";"@),
                ),
            },
    {
        let raw = string_or(plugin_paths, "");
        let sep = string_or(path_sep, ";");
        proof {
            reveal_strlit("");
        }
        assert(raw@ == setting_or(plugin_paths, Seq::empty()));
        let mut config = RuntimeConfig {
            http_listen_addr: string_or(http_listen_addr, "127.0.0.1:12345"),
            tcp_listen_addr: string_or(tcp_listen_addr, "127.0.0.1:12346"),
            udp_listen_addr: string_or(udp_listen_addr, "127.0.0.1:12347"),
            plugin_paths: parse_plugin_paths(raw.as_str(), sep.as_str()),
        };
        if let Some(o) = overrides {
            if let Some(a) = o.http_listen_addr {
                config.http_listen_addr = a;
            }
            if let Some(p) = o.plugin_paths {
                config.plugin_paths = p;
            }
        }
        config
    }
}

/// Network settings used when attaching the HTTP proxy service.
#[derive(Clone, Debug)]
pub struct ProxySettings {
    /// Address where the proxy accepts downstream connections.
    pub listen_addr: String,
}

impl ProxySettings {
    /// Settings for a proxy listening on `listen_addr`.
    pub fn new(listen_addr: String) -> (s: ProxySettings)
        ensures
            s.listen_addr == listen_addr,
    {
        ProxySettings { listen_addr }
    }
}

} // verus!

verus! {

proof fn lemma_first_blank_range(pieces: Seq<Seq<char>>, i: int)
    requires
        0 <= i,
    ensures
        first_blank_from(pieces, i) == -1 || first_blank_from(pieces, i) >= i,
    decreases pieces.len() - i,
{
    if i < pieces.len() {
        lemma_first_blank_range(pieces, i + 1);
    }
}

proof fn lemma_no_blank_from(pieces: Seq<Seq<char>>, i: int)
    requires
        0 <= i,
        first_blank_from(pieces, i) == -1,
    ensures
        forall|j: int| i <= j < pieces.len() ==> trim(#[trigger] pieces[j]).len() > 0,
    decreases pieces.len() - i,
{
    if i < pieces.len() {
        lemma_no_blank_from(pieces, i + 1);
    }
}

proof fn lemma_nonempty_trimmed_all(pieces: Seq<Seq<char>>)
    requires
        forall|j: int| 0 <= j < pieces.len() ==> trim(#[trigger] pieces[j]).len() > 0,
    ensures
        nonempty_trimmed(pieces) == Seq::new(pieces.len(), |i: int| trim(pieces[i])),
    decreases pieces.len(),
{
    if pieces.len() > 0 {
        let d = pieces.drop_last();
        assert forall|j: int| 0 <= j < d.len() implies trim(#[trigger] d[j]).len() > 0 by {
            assert(d[j] == pieces[j]);
        }
        lemma_nonempty_trimmed_all(d);
        assert(trim(pieces.last()).len() > 0);
        assert(Seq::new(d.len(), |i: int| trim(d[i])).push(trim(pieces.last())) =~= Seq::new(
            pieces.len(),
            |i: int| trim(pieces[i]),
        ));
    }
}

/// A strict plugin path list that is accepted holds exactly the entries of
/// the lenient list split at `;`: with no blank entry, strictness changes
/// nothing.
pub proof fn lemma_strict_paths_agree_with_lenient(raw: Seq<char>)
    ensures
        strict_plugin_path_list(raw) matches Ok(v) ==> v == plugin_path_list(raw, seq![';']),
{
    if trim(raw).len() != 0 {
        let pieces = split(raw, seq![';']);
        lemma_first_blank_range(pieces, 0);
        if first_blank_from(pieces, 0) < 0 {
            lemma_no_blank_from(pieces, 0);
            lemma_nonempty_trimmed_all(pieces);
        }
    }
}

/// A line that reading skips whatever was read before it: blank, or a `#`
/// comment once trimmed.
pub open spec fn skipped_line(raw: Seq<char>) -> bool {
    trim(raw).len() == 0 || trim(raw)[0] == '#'
}

/// `s2` is where reading stops in a file that has one extra line at `j`,
/// and `s1` where it stops in the file without it: the same result, or the
/// same listen address found at the same line, its index moved past `j`.
pub open spec fn scan_shifted(s1: ScanModel, s2: ScanModel, j: int) -> bool {
    match s1 {
        ScanModel::Finished(r) => s2 == ScanModel::Finished(r),
        ScanModel::NeedsCheck(acc, k, v) => s2 == ScanModel::NeedsCheck(
            acc,
            if k < j { k } else { k + 1 },
            v,
        ),
    }
}

proof fn lemma_scan_after_insert(
    acc: OverridesModel,
    lines: Seq<Seq<char>>,
    j: int,
    b: Seq<char>,
    i: int,
)
    requires
        0 <= j <= i,
        j <= lines.len(),
    ensures
        scan_shifted(scan_lines(acc, lines, i), scan_lines(acc, lines.insert(j, b), i + 1), j),
    decreases lines.len() - i,
{
    let ext = lines.insert(j, b);
    if i < lines.len() {
        assert(ext[i + 1] == lines[i]);
        match classify_line(acc, lines[i]) {
            LineVerdict::Skip => lemma_scan_after_insert(acc, lines, j, b, i + 1),
            LineVerdict::PluginPaths(p) => lemma_scan_after_insert(
                OverridesModel { plugin_paths: Some(p), ..acc },
                lines,
                j,
                b,
                i + 1,
            ),
            _ => {},
        }
    }
}

proof fn lemma_scan_before_insert(
    acc: OverridesModel,
    lines: Seq<Seq<char>>,
    j: int,
    b: Seq<char>,
    i: int,
)
    requires
        0 <= i <= j <= lines.len(),
        skipped_line(b),
    ensures
        scan_shifted(scan_lines(acc, lines, i), scan_lines(acc, lines.insert(j, b), i), j),
    decreases j - i,
{
    let ext = lines.insert(j, b);
    if i == j {
        assert(ext[j] == b);
        lemma_scan_after_insert(acc, lines, j, b, j);
    } else {
        assert(ext[i] == lines[i]);
        match classify_line(acc, lines[i]) {
            LineVerdict::Skip => lemma_scan_before_insert(acc, lines, j, b, i + 1),
            LineVerdict::PluginPaths(p) => lemma_scan_before_insert(
                OverridesModel { plugin_paths: Some(p), ..acc },
                lines,
                j,
                b,
                i + 1,
            ),
            _ => {},
        }
    }
}

/// A blank or `#` comment line, inserted anywhere in a config file, changes
/// neither the listen address to check nor the outcome of reading it.
pub proof fn lemma_skipped_line_keeps_outcome(
    lines: Seq<Seq<char>>,
    j: int,
    b: Seq<char>,
    addr_valid: bool,
)
    requires
        0 <= j <= lines.len(),
        skipped_line(b),
    ensures
        lines_candidate(lines.insert(j, b)) == lines_candidate(lines),
        lines_outcome(lines.insert(j, b), addr_valid) == lines_outcome(lines, addr_valid),
{
    let ext = lines.insert(j, b);
    lemma_scan_before_insert(no_overrides(), lines, j, b, 0);
    match scan_lines(no_overrides(), lines, 0) {
        ScanModel::NeedsCheck(acc, k, v) => {
            lemma_scan_check_index(no_overrides(), lines, 0);
            let acc2 = OverridesModel { http_listen_addr: Some(v), ..acc };
            if k < j {
                lemma_scan_before_insert(acc2, lines, j, b, k + 1);
            } else {
                lemma_scan_after_insert(acc2, lines, j, b, k + 1);
            }
            lemma_scan_no_check_once_set(acc2, lines, k + 1);
        },
        ScanModel::Finished(_) => {},
    }
}

/// The lines that reading does not skip, in order.
pub open spec fn kept_lines(lines: Seq<Seq<char>>) -> Seq<Seq<char>>
    decreases lines.len(),
{
    if lines.len() == 0 {
        lines
    } else if skipped_line(lines[0]) {
        kept_lines(lines.drop_first())
    } else {
        seq![lines[0]] + kept_lines(lines.drop_first())
    }
}

proof fn lemma_kept_lines_decide(q: Seq<Seq<char>>, l: Seq<Seq<char>>, addr_valid: bool)
    ensures
        lines_candidate(q + l) == lines_candidate(q + kept_lines(l)),
        lines_outcome(q + l, addr_valid) == lines_outcome(q + kept_lines(l), addr_valid),
    decreases l.len(),
{
    if l.len() == 0 {
        assert(kept_lines(l) =~= l);
    } else {
        let rest = l.drop_first();
        if skipped_line(l[0]) {
            assert(q + l =~= (q + rest).insert(q.len() as int, l[0]));
            lemma_skipped_line_keeps_outcome(q + rest, q.len() as int, l[0], addr_valid);
            lemma_kept_lines_decide(q, rest, addr_valid);
        } else {
            assert(q + l =~= q.push(l[0]) + rest);
            assert(q + kept_lines(l) =~= q.push(l[0]) + kept_lines(rest));
            lemma_kept_lines_decide(q.push(l[0]), rest, addr_valid);
        }
    }
}

/// Only the lines that are neither blank nor `#` comments decide a config
/// file: two files with the same such lines, in the same order, have the
/// same listen address to check and the same outcome, however many blank
/// and comment lines either holds, and wherever.
pub proof fn lemma_kept_lines_decide_outcome(c1: Seq<char>, c2: Seq<char>, addr_valid: bool)
    requires
        kept_lines(config_lines(c1)) == kept_lines(config_lines(c2)),
    ensures
        listen_addr_candidate(c1) == listen_addr_candidate(c2),
        config_outcome(c1, addr_valid) == config_outcome(c2, addr_valid),
{
    let e = Seq::<Seq<char>>::empty();
    assert(e + config_lines(c1) =~= config_lines(c1));
    assert(e + config_lines(c2) =~= config_lines(c2));
    assert(e + kept_lines(config_lines(c1)) =~= kept_lines(config_lines(c1)));
    lemma_kept_lines_decide(e, config_lines(c1), addr_valid);
    lemma_kept_lines_decide(e, config_lines(c2), addr_valid);
}

proof fn lemma_kept_lines_insert(l: Seq<Seq<char>>, j: int, b: Seq<char>)
    requires
        0 <= j <= l.len(),
        skipped_line(b),
    ensures
        kept_lines(l.insert(j, b)) == kept_lines(l),
    decreases j,
{
    let ext = l.insert(j, b);
    if j == 0 {
        assert(ext.drop_first() =~= l);
    } else {
        assert(ext[0] == l[0]);
        assert(ext.drop_first() =~= l.drop_first().insert(j - 1, b));
        lemma_kept_lines_insert(l.drop_first(), j - 1, b);
    }
}

/// The text of the lines `bs`, each followed by a line break.
pub open spec fn lines_text(bs: Seq<Seq<char>>) -> Seq<char>
    decreases bs.len(),
{
    if bs.len() == 0 {
        Seq::empty()
    } else {
        bs[0] + seq!['\n'] + lines_text(bs.drop_first())
    }
}

/// Blank and `#` comment lines written into a config file at the start of
/// a line leave the lines that decide it, and so its outcome, unchanged.
pub proof fn lemma_skipped_text_lines_keep_outcome(
    p: Seq<char>,
    bs: Seq<Seq<char>>,
    s: Seq<char>,
    addr_valid: bool,
)
    requires
        p.len() == 0 || p.last() == '\n',
        forall|i: int| 0 <= i < bs.len() ==> skipped_line(#[trigger] bs[i]),
        forall|i: int, k: int| 0 <= i < bs.len() && 0 <= k < bs[i].len() ==> bs[i][k] != '\n',
    ensures
        kept_lines(config_lines(p + lines_text(bs) + s)) == kept_lines(config_lines(p + s)),
        listen_addr_candidate(p + lines_text(bs) + s) == listen_addr_candidate(p + s),
        config_outcome(p + lines_text(bs) + s, addr_valid) == config_outcome(p + s, addr_valid),
    decreases bs.len(),
{
    if bs.len() == 0 {
        assert(p + lines_text(bs) + s =~= p + s);
    } else {
        let rest = bs.drop_first();
        let tail = lines_text(rest) + s;
        assert(p + lines_text(bs) + s =~= p + bs[0] + seq!['\n'] + tail);
        assert(p + tail =~= p + lines_text(rest) + s);
        assert(skipped_line(bs[0]));
        let j = lemma_split_insert_line(p, bs[0], tail);
        lemma_kept_lines_insert(config_lines(p + tail), j, bs[0]);
        lemma_skipped_text_lines_keep_outcome(p, rest, s, addr_valid);
    }
    lemma_kept_lines_decide_outcome(p + lines_text(bs) + s, p + s, addr_valid);
}

/// What the line `raw` sets on its own, read first in a file.
pub open spec fn line_setting(raw: Seq<char>) -> LineVerdict {
    classify_line(no_overrides(), raw)
}

proof fn lemma_scan_collects_settings(acc: OverridesModel, lines: Seq<Seq<char>>, i: int)
    requires
        0 <= i,
    ensures
        scan_lines(acc, lines, i) matches ScanModel::Finished(Ok(o)) ==> {
            &&& o.http_listen_addr == acc.http_listen_addr
            &&& (acc.plugin_paths is Some ==> o.plugin_paths == acc.plugin_paths)
            &&& forall|j: int|
                i <= j < lines.len() ==> !(#[trigger] line_setting(lines[j]) is ListenAddr)
            &&& forall|j: int|
                i <= j < lines.len() ==> (#[trigger] line_setting(lines[j]) matches LineVerdict::PluginPaths(p) ==> o.plugin_paths == Some(p))
        },
        scan_lines(acc, lines, i) matches ScanModel::NeedsCheck(a2, k, v) ==> {
            &&& i <= k < lines.len()
            &&& acc.http_listen_addr is None
            &&& line_setting(lines[k]) == LineVerdict::ListenAddr(v)
            &&& a2.http_listen_addr == acc.http_listen_addr
            &&& (acc.plugin_paths is Some ==> a2.plugin_paths == acc.plugin_paths)
            &&& forall|j: int|
                i <= j < k ==> !(#[trigger] line_setting(lines[j]) is ListenAddr)
            &&& forall|j: int|
                i <= j < k ==> (#[trigger] line_setting(lines[j]) matches LineVerdict::PluginPaths(p) ==> a2.plugin_paths == Some(p))
        },
    decreases lines.len() - i,
{
    if i < lines.len() {
        match classify_line(acc, lines[i]) {
            LineVerdict::Skip => lemma_scan_collects_settings(acc, lines, i + 1),
            LineVerdict::PluginPaths(p) => lemma_scan_collects_settings(
                OverridesModel { plugin_paths: Some(p), ..acc },
                lines,
                i + 1,
            ),
            _ => {},
        }
    }
}

/// Reading a config file does not depend on the order of its settings: an
/// accepted file holds the listen address of its listen address line and
/// the strict path list of its `plugin_paths` line, wherever each stands,
/// and holds none of either when it has no such line.
pub proof fn lemma_accepted_config_holds_each_setting(lines: Seq<Seq<char>>, addr_valid: bool)
    ensures
        lines_outcome(lines, addr_valid) matches Ok(o) ==> {
            &&& forall|j: int|
                0 <= j < lines.len() ==> (#[trigger] line_setting(lines[j]) matches LineVerdict::ListenAddr(a) ==> o.http_listen_addr == Some(a))
            &&& forall|j: int|
                0 <= j < lines.len() ==> (#[trigger] line_setting(lines[j]) matches LineVerdict::PluginPaths(p) ==> o.plugin_paths == Some(p))
            &&& (o.http_listen_addr is Some ==> exists|j: int|
                0 <= j < lines.len() && #[trigger] line_setting(lines[j]) is ListenAddr)
            &&& (o.plugin_paths is Some ==> exists|j: int|
                0 <= j < lines.len() && #[trigger] line_setting(lines[j]) is PluginPaths)
        },
{
    lemma_scan_collects_settings(no_overrides(), lines, 0);
    lemma_scan_sets_only_from_lines(no_overrides(), lines, 0);
    match scan_lines(no_overrides(), lines, 0) {
        ScanModel::NeedsCheck(acc, k, v) => {
            let acc2 = OverridesModel { http_listen_addr: Some(v), ..acc };
            lemma_scan_collects_settings(acc2, lines, k + 1);
            lemma_scan_sets_only_from_lines(acc2, lines, k + 1);
            lemma_scan_no_check_once_set(acc2, lines, k + 1);
            if lines_outcome(lines, addr_valid) is Ok {
                let o = lines_outcome(lines, addr_valid)->Ok_0;
                assert forall|j: int|
                    0 <= j < lines.len() && #[trigger] line_setting(lines[j]) is PluginPaths implies o.plugin_paths
                    == Some(line_setting(lines[j])->0) by {
                    if j > k {
                    } else if j < k {
                    }
                }
                assert(o.http_listen_addr is Some ==> line_setting(lines[k]) is ListenAddr);
                if o.plugin_paths is Some && acc.plugin_paths is None {
                    let j = choose|j: int|
                        k + 1 <= j < lines.len() && #[trigger] line_setting(lines[j]) is PluginPaths;
                }
            }
        },
        ScanModel::Finished(_) => {},
    }
}

proof fn lemma_scan_no_repeats(acc: OverridesModel, lines: Seq<Seq<char>>, i: int)
    requires
        0 <= i,
    ensures
        scan_lines(acc, lines, i) matches ScanModel::Finished(Ok(o)) ==> {
            &&& (acc.plugin_paths is Some ==> forall|j: int|
                i <= j < lines.len() ==> !(#[trigger] line_setting(lines[j]) is PluginPaths))
            &&& forall|j1: int, j2: int|
                i <= j1 < j2 < lines.len() ==> !(#[trigger] line_setting(lines[j1]) is PluginPaths
                    && #[trigger] line_setting(lines[j2]) is PluginPaths)
        },
        scan_lines(acc, lines, i) matches ScanModel::NeedsCheck(a2, k, v) ==> {
            &&& (acc.plugin_paths is Some ==> forall|j: int|
                i <= j < k ==> !(#[trigger] line_setting(lines[j]) is PluginPaths))
            &&& forall|j1: int, j2: int|
                i <= j1 < j2 < k ==> !(#[trigger] line_setting(lines[j1]) is PluginPaths
                    && #[trigger] line_setting(lines[j2]) is PluginPaths)
        },
    decreases lines.len() - i,
{
    if i < lines.len() {
        match classify_line(acc, lines[i]) {
            LineVerdict::Skip => lemma_scan_no_repeats(acc, lines, i + 1),
            LineVerdict::PluginPaths(p) => lemma_scan_no_repeats(
                OverridesModel { plugin_paths: Some(p), ..acc },
                lines,
                i + 1,
            ),
            _ => {},
        }
    }
}

/// A setting written twice is refused: a config file with two listen
/// address lines, or two `plugin_paths` lines, is never accepted.
pub proof fn lemma_repeated_setting_is_refused(
    lines: Seq<Seq<char>>,
    addr_valid: bool,
    j1: int,
    j2: int,
)
    requires
        0 <= j1 < j2 < lines.len(),
        (line_setting(lines[j1]) is ListenAddr && line_setting(lines[j2]) is ListenAddr) || (
        line_setting(lines[j1]) is PluginPaths && line_setting(lines[j2]) is PluginPaths),
    ensures
        lines_outcome(lines, addr_valid) is Err,
{
    lemma_scan_collects_settings(no_overrides(), lines, 0);
    lemma_scan_no_repeats(no_overrides(), lines, 0);
    match scan_lines(no_overrides(), lines, 0) {
        ScanModel::NeedsCheck(acc, k, v) => {
            let acc2 = OverridesModel { http_listen_addr: Some(v), ..acc };
            lemma_scan_collects_settings(acc2, lines, k + 1);
            lemma_scan_no_repeats(acc2, lines, k + 1);
            if j1 < k && j2 > k && line_setting(lines[j1]) is PluginPaths {
                assert(acc.plugin_paths is Some);
            }
        },
        ScanModel::Finished(_) => {},
    }
}

proof fn lemma_scan_sets_only_from_lines(acc: OverridesModel, lines: Seq<Seq<char>>, i: int)
    requires
        0 <= i,
    ensures
        scan_lines(acc, lines, i) matches ScanModel::Finished(Ok(o)) ==> (o.plugin_paths is Some
            ==> acc.plugin_paths is Some || exists|j: int|
            i <= j < lines.len() && #[trigger] line_setting(lines[j]) is PluginPaths),
        scan_lines(acc, lines, i) matches ScanModel::NeedsCheck(a2, k, v) ==> (a2.plugin_paths
            is Some ==> acc.plugin_paths is Some || exists|j: int|
            i <= j < k && #[trigger] line_setting(lines[j]) is PluginPaths),
    decreases lines.len() - i,
{
    if i < lines.len() {
        match classify_line(acc, lines[i]) {
            LineVerdict::Skip => lemma_scan_sets_only_from_lines(acc, lines, i + 1),
            LineVerdict::PluginPaths(p) => {
                lemma_scan_sets_only_from_lines(
                    OverridesModel { plugin_paths: Some(p), ..acc },
                    lines,
                    i + 1,
                );
                lemma_scan_check_index(OverridesModel { plugin_paths: Some(p), ..acc }, lines, i + 1);
                assert(line_setting(lines[i]) is PluginPaths);
            },
            _ => {},
        }
    }
}

proof fn lemma_scan_keeps_listen_addr(acc: OverridesModel, lines: Seq<Seq<char>>, i: int)
    ensures
        scan_lines(acc, lines, i) matches ScanModel::Finished(Ok(o)) ==> o.http_listen_addr
            == acc.http_listen_addr,
    decreases lines.len() - i,
{
    if 0 <= i < lines.len() {
        match classify_line(acc, lines[i]) {
            LineVerdict::Skip => lemma_scan_keeps_listen_addr(acc, lines, i + 1),
            LineVerdict::PluginPaths(p) => lemma_scan_keeps_listen_addr(
                OverridesModel { plugin_paths: Some(p), ..acc },
                lines,
                i + 1,
            ),
            _ => {},
        }
    }
}

/// A config file that is accepted with a listen address holds the address
/// that was checked, and only a valid one is accepted.
pub proof fn lemma_accepted_listen_addr_was_checked(content: Seq<char>, addr_valid: bool)
    ensures
        config_outcome(content, addr_valid) matches Ok(o) ==> (o.http_listen_addr is Some ==> (
        addr_valid && o.http_listen_addr == listen_addr_candidate(content))),
{
    let lines = config_lines(content);
    lemma_scan_keeps_listen_addr(no_overrides(), lines, 0);
    match scan_lines(no_overrides(), lines, 0) {
        ScanModel::NeedsCheck(acc, k, v) => {
            lemma_scan_keeps_listen_addr(
                OverridesModel { http_listen_addr: Some(v), ..acc },
                lines,
                k + 1,
            );
        },
        ScanModel::Finished(_) => {},
    }
}

} // verus!
