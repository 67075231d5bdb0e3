use vstd::prelude::*;
use crate::clock::now_secs;
use crate::text::{
    split_on,
    chars_of, chars_eq, trim, trim_chars, fold, fold_chars, ends_with, ends_with_chars, parse_uint,
    parse_u64_chars, parse_u32_chars, find_char, find_char_exec, sub_chars, string_of, string_from,
    push_str, push_u64, push_char, dec,
};

verus! {

/// Compression strategy for rotated logs.
#[derive(Debug, Clone, Copy, PartialEq, Eq, Structural)]
pub enum Compression {
    Uncompressed,
    Gzip,
}

/// Rotation trigger type.
#[derive(Debug, Clone, Copy, PartialEq, Eq, Structural)]
pub enum RotationTrigger {
    /// Rotate when the log file reaches a certain size (bytes).
    Size(u64),
    /// Rotate after a certain number of seconds.
    Time(u64),
}

/// Configuration for log file rotation.
#[derive(Debug)]
pub struct LogRotationConfig {
    /// Directory for log files.
    pub output_dir: String,
    /// Base filename (without extension).
    pub base_name: String,
    /// Maximum size of a single log file before rotation (bytes).
    pub max_file_size: u64,
    /// Maximum number of archived log files to retain.
    pub max_files: u32,
    /// Compression strategy for archived logs.
    pub compression: Compression,
    /// Rotation trigger.
    pub trigger: RotationTrigger,
    /// Whether to include timestamps in archived filenames.
    pub timestamp_suffix: bool,
    /// File permission mode (Unix).
    pub file_mode: u32,
}

/// The content of a configuration, with texts as character sequences.
pub struct ConfigModel {
    pub output_dir: Seq<char>,
    pub base_name: Seq<char>,
    pub max_file_size: u64,
    pub max_files: u32,
    pub compression: Compression,
    pub trigger: RotationTrigger,
    pub timestamp_suffix: bool,
    pub file_mode: u32,
}

/// Ten megabytes, the default size limit.
pub const DEFAULT_MAX_FILE_SIZE: u64 = 10485760;

/// The default configuration: `logs/devkit.log`, 10 MB per file, five archives,
/// no compression, timestamps in archive names, mode 0o644.
pub open spec fn default_model() -> ConfigModel {
    ConfigModel {
        output_dir: "logs"@,
        base_name: "devkit"@,
        max_file_size: DEFAULT_MAX_FILE_SIZE,
        max_files: 5,
        compression: Compression::Uncompressed,
        trigger: RotationTrigger::Size(DEFAULT_MAX_FILE_SIZE),
        timestamp_suffix: true,
        file_mode: 420,
    }
}

impl LogRotationConfig {
    pub open spec fn view(&self) -> ConfigModel {
        ConfigModel {
            output_dir: self.output_dir@,
            base_name: self.base_name@,
            max_file_size: self.max_file_size,
            max_files: self.max_files,
            compression: self.compression,
            trigger: self.trigger,
            timestamp_suffix: self.timestamp_suffix,
            file_mode: self.file_mode,
        }
    }
}

impl Default for LogRotationConfig {
    fn default() -> (c: Self)
        ensures
            c@ == default_model(),
    {
        LogRotationConfig {
            output_dir: string_from("logs"),
            base_name: string_from("devkit"),
            max_file_size: DEFAULT_MAX_FILE_SIZE,
            max_files: 5,
            compression: Compression::Uncompressed,
            trigger: RotationTrigger::Size(DEFAULT_MAX_FILE_SIZE),
            timestamp_suffix: true,
            file_mode: 420,
        }
    }
}

/// `Path::join` on Unix: an absolute `file` replaces `dir`; otherwise a `'/'`
/// goes between them unless `dir` is empty or already ends with one.
pub open spec fn path_join(dir: Seq<char>, file: Seq<char>) -> Seq<char> {
    if file.len() > 0 && file[0] == '/' {
        file
    } else if dir.len() == 0 || dir.last() == '/' {
        dir + file
    } else {
        dir + seq!['/'] + file
    }
}

fn join_path(dir: &str, file: &Vec<char>) -> (r: String)
    ensures
        r@ == path_join(dir@, file@),
{
    let d = chars_of(dir);
    if file.len() > 0 && file[0] == '/' {
        return string_of(file);
    }
    let mut out = string_from(dir);
    if d.len() > 0 && d[d.len() - 1] != '/' {
        push_char(&mut out, '/');
    }
    crate::text::push_chars(&mut out, file);
    out
}

/// The messages for what is wrong with a configuration, in order.
pub open spec fn config_issues(m: ConfigModel) -> Seq<Seq<char>> {
    (if m.max_file_size == 0 { seq!["max_file_size must be > 0"@] } else { Seq::empty() }) + (if m.max_files
        == 0 {
        seq!["max_files must be > 0"@]
    } else {
        Seq::empty()
    }) + (if m.base_name.len() == 0 { seq!["base_name must not be empty"@] } else { Seq::empty() })
}

/// The file name of the active log.
pub open spec fn active_file(m: ConfigModel) -> Seq<char> {
    path_join(m.output_dir, m.base_name + ".log"@)
}

/// The file name of an archive, written at `ts` seconds when timestamps are on.
pub open spec fn archive_file(m: ConfigModel, index: u32, ts: u64) -> Seq<char> {
    let ext = match m.compression {
        Compression::Gzip => "log.gz"@,
        Compression::Uncompressed => "log"@,
    };
    if m.timestamp_suffix {
        path_join(
            m.output_dir,
            m.base_name + seq!['.'] + dec(ts as nat) + seq!['.'] + dec(index as nat) + seq!['.']
                + ext,
        )
    } else {
        path_join(m.output_dir, m.base_name + seq!['.'] + dec(index as nat) + seq!['.'] + ext)
    }
}

impl LogRotationConfig {
    /// What is wrong with the configuration; empty when it is valid.
    pub fn validate(&self) -> (issues: Vec<String>)
        ensures
            issues@.map_values(|s: String| s@) == config_issues(self@),
    {
        let mut issues: Vec<String> = Vec::new();
        if self.max_file_size == 0 {
            issues.push(string_from("max_file_size must be > 0"));
        }
        if self.max_files == 0 {
            issues.push(string_from("max_files must be > 0"));
        }
        if self.base_name.as_str().is_empty() {
            issues.push(string_from("base_name must not be empty"));
        }
        assert(issues@.map_values(|s: String| s@) =~= config_issues(self@));
        issues
    }

    /// The path of the active log file.
    pub fn active_path(&self) -> (p: String)
        ensures
            p@ == active_file(self@),
    {
        let mut name = chars_of(self.base_name.as_str());
        let ext = chars_of(".log");
        let mut i: usize = 0;
        let ghost base = name@;
        while i < ext.len()
            invariant
                i <= ext.len(),
                ext@ == ".log"@,
                name@ == base + ext@.take(i as int),
            decreases ext.len() - i,
        {
            name.push(ext[i]);
            assert(ext@.take(i + 1) =~= ext@.take(i as int).push(ext@[i as int]));
            i += 1;
        }
        assert(ext@.take(i as int) =~= ext@);
        join_path(self.output_dir.as_str(), &name)
    }

    /// The path of an archived log file written at `ts` seconds since the epoch.
    pub fn archive_path_at(&self, index: u32, ts: u64) -> (p: String)
        ensures
            p@ == archive_file(self@, index, ts),
    {
        let mut name = String::new();
        push_str(&mut name, self.base_name.as_str());
        push_char(&mut name, '.');
        if self.timestamp_suffix {
            push_u64(&mut name, ts);
            push_char(&mut name, '.');
        }
        push_u64(&mut name, index as u64);
        push_char(&mut name, '.');
        match self.compression {
            Compression::Gzip => push_str(&mut name, "log.gz"),
            Compression::Uncompressed => push_str(&mut name, "log"),
        }
        let file = chars_of(name.as_str());
        proof {
            let ext = match self.compression {
                Compression::Gzip => "log.gz"@,
                Compression::Uncompressed => "log"@,
            };
            if self.timestamp_suffix {
                assert(file@ =~= self.base_name@ + seq!['.'] + dec(ts as nat) + seq!['.'] + dec(
                    index as nat,
                ) + seq!['.'] + ext);
            } else {
                assert(file@ =~= self.base_name@ + seq!['.'] + dec(index as nat) + seq!['.']
                    + ext);
            }
        }
        join_path(self.output_dir.as_str(), &file)
    }

    /// The path of an archived log file; when timestamps are on, the current
    /// time in seconds names it.
    pub fn archive_path(&self, index: u32) -> (p: String)
        ensures
            exists|ts: u64| p@ == archive_file(self@, index, ts),
    {
        let ts = if self.timestamp_suffix { now_secs() } else { 0 };
        self.archive_path_at(index, ts)
    }

    /// Whether writing a line of `line_len` bytes (plus its newline) onto a file of
    /// `current_size` bytes must first rotate the file.
    pub fn should_rotate(&self, current_size: u64, line_len: usize) -> (b: bool)
        requires
            current_size + line_len + 1 <= u64::MAX,
        ensures
            b == (current_size + line_len + 1 > self.max_file_size),
    {
        current_size + line_len as u64 + 1 > self.max_file_size
    }

    /// The index of the archive that the retention limit drops once archive
    /// `index` is written, if any.
    pub fn retired_archive(&self, index: u32) -> (r: Option<u32>)
        ensures
            index >= self.max_files ==> r == Some((index - self.max_files) as u32),
            index < self.max_files ==> r is None,
    {
        if index >= self.max_files {
            Some(index - self.max_files)
        } else {
            None
        }
    }
}

// ---------------------------------------------------------------------------
// Sizes and configuration text
// ---------------------------------------------------------------------------

/// The number and the unit (in bytes) of a size text: a number followed by
/// `gb`, `mb`, `kb`, `b` or nothing, in any case, around whitespace.
pub open spec fn size_parts(s: Seq<char>) -> Option<(nat, nat)> {
    let t = fold(trim(s));
    if ends_with(t, "gb"@) {
        match parse_uint(t.take(t.len() - 2), u64::MAX as nat) {
            Some(v) => Some((v, 1073741824nat)),
            None => None,
        }
    } else if ends_with(t, "mb"@) {
        match parse_uint(t.take(t.len() - 2), u64::MAX as nat) {
            Some(v) => Some((v, 1048576nat)),
            None => None,
        }
    } else if ends_with(t, "kb"@) {
        match parse_uint(t.take(t.len() - 2), u64::MAX as nat) {
            Some(v) => Some((v, 1024nat)),
            None => None,
        }
    } else if ends_with(t, "b"@) {
        match parse_uint(t.take(t.len() - 1), u64::MAX as nat) {
            Some(v) => Some((v, 1nat)),
            None => None,
        }
    } else {
        match parse_uint(t, u64::MAX as nat) {
            Some(v) => Some((v, 1nat)),
            None => None,
        }
    }
}

/// The size in bytes fits in 64 bits (or the text is no size at all).
pub open spec fn size_fits(s: Seq<char>) -> bool {
    match size_parts(s) {
        Some((v, unit)) => v * unit <= u64::MAX,
        None => true,
    }
}

/// The size in bytes that a size text names.
pub open spec fn size_of_text(s: Seq<char>) -> Option<u64> {
    match size_parts(s) {
        Some((v, unit)) => Some((v * unit) as u64),
        None => None,
    }
}

/// The number and the unit of a size text.
fn size_parts_exec(s: &str) -> (r: Option<(u64, u64)>)
    ensures
        match size_parts(s@) {
            Some((v, unit)) => r == Some((v as u64, unit as u64)),
            None => r is None,
        },
{
    let t = fold_chars(&trim_chars(&chars_of(s)));
    let n = t.len();
    proof {
        reveal_strlit("gb");
        reveal_strlit("mb");
        reveal_strlit("kb");
        reveal_strlit("b");
    }
    let (digits, unit): (Vec<char>, u64) = if ends_with_chars(&t, &chars_of("gb")) {
        (sub_chars(&t, 0, n - 2), 1073741824)
    } else if ends_with_chars(&t, &chars_of("mb")) {
        (sub_chars(&t, 0, n - 2), 1048576)
    } else if ends_with_chars(&t, &chars_of("kb")) {
        (sub_chars(&t, 0, n - 2), 1024)
    } else if ends_with_chars(&t, &chars_of("b")) {
        (sub_chars(&t, 0, n - 1), 1)
    } else {
        (sub_chars(&t, 0, n), 1)
    };
    proof {
        let tt = fold(trim(s@));
        assert(tt == t@);
        if ends_with(tt, "gb"@) || ends_with(tt, "mb"@) || ends_with(tt, "kb"@) {
            assert(digits@ =~= tt.take(tt.len() - 2));
        } else if ends_with(tt, "b"@) {
            assert(digits@ =~= tt.take(tt.len() - 1));
        } else {
            assert(digits@ =~= tt);
        }
        match size_parts(s@) {
            Some((v, u)) => {
                assert(u == unit);
                assert(parse_uint(digits@, u64::MAX as nat) == Some(v));
            },
            None => {
                assert(parse_uint(digits@, u64::MAX as nat) is None);
            },
        }
    }
    match parse_u64_chars(&digits) {
        Some(v) => Some((v, unit)),
        None => None,
    }
}

/// Parses a human-readable size (e.g. `10MB`, `1gb`, `512`) into bytes.
pub fn parse_size(s: &str) -> (r: Option<u64>)
    requires
        size_fits(s@),
    ensures
        r == size_of_text(s@),
{
    match size_parts_exec(s) {
        Some((v, unit)) => Some(v * unit),
        None => None,
    }
}

/// Whether the size a size text names fits in 64 bits (true for a text
/// that names no size): the condition under which `parse_size` may be called.
pub fn size_fits_text(s: &str) -> (b: bool)
    ensures
        b == size_fits(s@),
{
    match size_parts_exec(s) {
        Some((v, unit)) => v.checked_mul(unit).is_some(),
        None => true,
    }
}

/// `s` without leading and trailing `'"'`.
pub open spec fn trim_quotes(s: Seq<char>) -> Seq<char> {
    trim_quotes_end(trim_quotes_start(s))
}

pub open spec fn trim_quotes_start(s: Seq<char>) -> Seq<char>
    decreases s.len(),
{
    if s.len() > 0 && s[0] == '"' {
        trim_quotes_start(s.drop_first())
    } else {
        s
    }
}

pub open spec fn trim_quotes_end(s: Seq<char>) -> Seq<char>
    decreases s.len(),
{
    if s.len() > 0 && s.last() == '"' {
        trim_quotes_end(s.drop_last())
    } else {
        s
    }
}

/// The key and the value of a `key = value` line, if it is one.
pub open spec fn line_entry(line: Seq<char>) -> Option<(Seq<char>, Seq<char>)> {
    let t = trim(line);
    if t.len() == 0 || t[0] == '#' {
        None
    } else {
        match find_char(t, '=') {
            Some(i) => Some((trim(t.take(i)), trim_quotes(trim(t.skip(i + 1))))),
            None => None,
        }
    }
}

/// The configuration after one line of configuration text.
pub open spec fn apply_line(m: ConfigModel, line: Seq<char>) -> ConfigModel {
    match line_entry(line) {
        Some((key, value)) => {
            if key == "max_file_size"@ {
                match size_of_text(value) {
                    Some(n) => ConfigModel { max_file_size: n, ..m },
                    None => m,
                }
            } else if key == "max_files"@ {
                match parse_uint(value, u32::MAX as nat) {
                    Some(n) => ConfigModel { max_files: n as u32, ..m },
                    None => m,
                }
            } else if key == "compression"@ {
                ConfigModel {
                    compression: if value == "gzip"@ { Compression::Gzip } else { Compression::Uncompressed },
                    ..m
                }
            } else if key == "output_dir"@ {
                ConfigModel { output_dir: value, ..m }
            } else if key == "base_name"@ {
                ConfigModel { base_name: value, ..m }
            } else {
                m
            }
        },
        None => m,
    }
}

/// The configuration after the given lines, in order.
pub open spec fn apply_lines(m: ConfigModel, lines: Seq<Seq<char>>) -> ConfigModel
    decreases lines.len(),
{
    if lines.len() == 0 {
        m
    } else {
        apply_lines(apply_line(m, lines[0]), lines.drop_first())
    }
}

/// Every `max_file_size` line names a size that fits in 64 bits.
pub open spec fn line_sizes_fit(line: Seq<char>) -> bool {
    match line_entry(line) {
        Some((key, value)) => key == "max_file_size"@ ==> size_fits(value),
        None => true,
    }
}

pub open spec fn config_sizes_fit(content: Seq<char>) -> bool {
    forall|i: int| 0 <= i < split_on(content, '\n').len() ==> line_sizes_fit(
        #[trigger] split_on(content, '\n')[i],
    )
}

/// The configuration that a configuration text gives, starting from the default.
pub open spec fn config_of_text(content: Seq<char>) -> ConfigModel {
    apply_lines(default_model(), split_on(content, '\n'))
}

fn trim_quotes_chars(s: &Vec<char>) -> (r: Vec<char>)
    ensures
        r@ == trim_quotes(s@),
{
    let mut i: usize = 0;
    assert(s@.skip(0) =~= s@);
    while i < s.len() && s[i] == '"'
        invariant
            i <= s.len(),
            trim_quotes_start(s@) == trim_quotes_start(s@.skip(i as int)),
        decreases s.len() - i,
    {
        assert(s@.skip(i as int).drop_first() =~= s@.skip(i + 1));
        i += 1;
    }
    let ghost t = s@.skip(i as int);
    assert(trim_quotes_start(t) == t);
    let mut j: usize = s.len();
    assert(s@.subrange(i as int, j as int) =~= t);
    while j > i && s[j - 1] == '"'
        invariant
            i <= j <= s.len(),
            t == s@.skip(i as int),
            trim_quotes_end(t) == trim_quotes_end(s@.subrange(i as int, j as int)),
        decreases j,
    {
        assert(s@.subrange(i as int, j as int).drop_last() =~= s@.subrange(i as int, j - 1));
        j -= 1;
    }
    proof {
        let u = s@.subrange(i as int, j as int);
        if u.len() > 0 {
            assert(u.last() == s@[j - 1]);
        }
    }
    sub_chars(s, i, j)
}

fn apply_line_exec(cfg: &mut LogRotationConfig, line: &Vec<char>)
    requires
        line_sizes_fit(line@),
    ensures
        final(cfg)@ == apply_line(old(cfg)@, line@),
{
    let t = trim_chars(line);
    if t.len() == 0 || t[0] == '#' {
        return;
    }
    let eq = find_char_exec(&t, '=');
    match eq {
        None => {
            return;
        },
        Some(i) => {
            let key = trim_chars(&sub_chars(&t, 0, i));
            let value = trim_quotes_chars(&trim_chars(&sub_chars(&t, i + 1, t.len())));
            assert(t@.subrange(0, i as int) =~= t@.take(i as int));
            assert(t@.subrange(i + 1, t@.len() as int) =~= t@.skip(i + 1));
            assert(line_entry(line@) == Some((key@, value@)));
            if chars_eq(&key, &chars_of("max_file_size")) {
                let vs = string_of(&value);
                match parse_size(vs.as_str()) {
                    Some(n) => {
                        cfg.max_file_size = n;
                    },
                    None => {},
                }
            } else if chars_eq(&key, &chars_of("max_files")) {
                match parse_u32_chars(&value) {
                    Some(n) => {
                        cfg.max_files = n;
                    },
                    None => {},
                }
            } else if chars_eq(&key, &chars_of("compression")) {
                cfg.compression = if chars_eq(&value, &chars_of("gzip")) {
                    Compression::Gzip
                } else {
                    Compression::Uncompressed
                };
            } else if chars_eq(&key, &chars_of("output_dir")) {
                cfg.output_dir = string_of(&value);
            } else if chars_eq(&key, &chars_of("base_name")) {
                cfg.base_name = string_of(&value);
            }
        },
    }
}

/// Parses a log rotation configuration from `key = value` lines. Blank lines,
/// `#` comments, lines without `=`, unknown keys and values that do not parse
/// leave the default in place.
pub fn parse_rotation_config(content: &str) -> (cfg: LogRotationConfig)
    requires
        config_sizes_fit(content@),
    ensures
        cfg@ == config_of_text(content@),
{
    let s = chars_of(content);
    let mut cfg = LogRotationConfig::default();
    let mut rest = sub_chars(&s, 0, s.len());
    assert(rest@ =~= content@);
    loop
        invariant
            apply_lines(cfg@, split_on(rest@, '\n')) == config_of_text(content@),
            forall|i: int| 0 <= i < split_on(rest@, '\n').len() ==> line_sizes_fit(
                #[trigger] split_on(rest@, '\n')[i],
            ),
        decreases rest@.len(),
    {
        let nl = find_char_exec(&rest, '\n');
        match nl {
            Some(i) => {
                let line = sub_chars(&rest, 0, i);
                let tail = sub_chars(&rest, i + 1, rest.len());
                proof {
                    assert(rest@.subrange(0, i as int) =~= rest@.take(i as int));
                    assert(rest@.subrange(i + 1, rest@.len() as int) =~= rest@.skip(i + 1));
                    let pieces = split_on(rest@, '\n');
                    assert(pieces == seq![line@] + split_on(tail@, '\n'));
                    assert(pieces[0] == line@);
                    assert(pieces.drop_first() =~= split_on(tail@, '\n'));
                    assert forall|k: int| 0 <= k < split_on(tail@, '\n').len() implies line_sizes_fit(
                        #[trigger] split_on(tail@, '\n')[k],
                    ) by {
                        assert(pieces[k + 1] == split_on(tail@, '\n')[k]);
                    }
                }
                apply_line_exec(&mut cfg, &line);
                rest = tail;
            },
            None => {
                let ghost before = cfg@;
                proof {
                    let pieces = split_on(rest@, '\n');
                    assert(pieces == seq![rest@]);
                    assert(pieces[0] == rest@);
                    assert(pieces.drop_first() =~= Seq::<Seq<char>>::empty());
                }
                apply_line_exec(&mut cfg, &rest);
                assert(apply_lines(before, split_on(rest@, '\n')) == apply_lines(
                    apply_line(before, rest@),
                    Seq::<Seq<char>>::empty(),
                ));
                return cfg;
            },
        }
    }
}

/// Arguments for the log rotation subcommand.
pub struct LogRotationArgs {
    /// Max file size before rotation (e.g. "10MB").
    pub max_size: String,
    /// Number of archive files to retain.
    pub max_files: u32,
    /// Output directory for logs.
    pub output_dir: Option<String>,
    /// Show current rotation configuration.
    pub show: bool,
    /// Validate the configuration and report issues.
    pub check: bool,
}

impl Default for LogRotationArgs {
    fn default() -> (a: Self)
        ensures
            a.max_size@ == "10MB"@,
            a.max_files == 5,
            a.output_dir is None,
            !a.show,
            !a.check,
    {
        LogRotationArgs {
            max_size: string_from("10MB"),
            max_files: 5,
            output_dir: None,
            show: false,
            check: false,
        }
    }
}

/// The default configuration with the size limit of `max_size` when it parses,
/// the archive count, and the directory when one is given.
pub open spec fn args_config(a: &LogRotationArgs) -> ConfigModel {
    ConfigModel {
        max_file_size: match size_of_text(a.max_size@) {
            Some(n) => n,
            None => DEFAULT_MAX_FILE_SIZE,
        },
        max_files: a.max_files,
        output_dir: match &a.output_dir {
            Some(d) => d@,
            None => "logs"@,
        },
        ..default_model()
    }
}

impl LogRotationArgs {
    /// The configuration these arguments describe: the default, with the size
    /// limit when `max_size` parses, the archive count, and the directory if given.
    pub fn config(&self) -> (cfg: LogRotationConfig)
        requires
            size_fits(self.max_size@),
        ensures
            cfg@ == args_config(self),
    {
        let mut cfg = LogRotationConfig::default();
        match parse_size(self.max_size.as_str()) {
            Some(size) => {
                cfg.max_file_size = size;
            },
            None => {},
        }
        cfg.max_files = self.max_files;
        match &self.output_dir {
            Some(dir) => {
                cfg.output_dir = string_from(dir.as_str());
            },
            None => {},
        }
        cfg
    }
}

} // verus!
