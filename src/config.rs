//! Application settings: defaults, `~` expansion, the INI reader and the
//! validation rules.
use vstd::prelude::*;

verus! {

/// Chord timeout used when the settings file names none, in milliseconds.
pub const DEFAULT_TIMEOUT_MS: u64 = 20;

/// Largest accepted chord timeout, in milliseconds.
pub const MAX_TIMEOUT_MS: u64 = 1000;

/// Directory name of this application under the user's config directory.
pub const APP_NAME: &'static str = "chords";

/// Application settings.
#[derive(Debug)]
pub struct AppConfig {
    /// Directory that holds the chord libraries.
    pub library_path: String,
    /// Chord timeout in milliseconds.
    pub chord_timeout: u64,
}

/// Why settings could not be built.
#[derive(Debug)]
pub enum ConfigError {
    /// A value breaks a rule; the text says which.
    Validation(String),
    /// No user directory is known.
    MissingDirectory,
    /// A chord timeout is not a decimal number of milliseconds.
    InvalidTimeout(String),
}

/// The position of the first `c` in `s`, or -1.
pub open spec fn first_of(s: Seq<char>, c: char) -> int {
    if exists|i: int| 0 <= i < s.len() && s[i] == c && (forall|j: int| 0 <= j < i ==> s[j] != c) {
        choose|i: int| 0 <= i < s.len() && s[i] == c && (forall|j: int| 0 <= j < i ==> s[j] != c)
    } else {
        -1
    }
}

/// `a` joined with `b` as a file system path: an absolute `b` replaces `a`;
/// otherwise one `/` separates them.
pub open spec fn path_join(a: Seq<char>, b: Seq<char>) -> Seq<char> {
    if b.len() > 0 && b[0] == '/' {
        b
    } else if a.len() == 0 || a.last() == '/' {
        a + b
    } else {
        a + "/"@ + b
    }
}

/// `s` without its leading `/` characters.
pub open spec fn strip_slashes(s: Seq<char>) -> Seq<char>
    decreases s.len(),
{
    if s.len() > 0 && s[0] == '/' {
        strip_slashes(s.drop_first())
    } else {
        s
    }
}

/// The path's first component is `~`.
pub open spec fn is_home_relative(path: Seq<char>) -> bool {
    path.len() > 0 && path[0] == '~' && (path.len() == 1 || path[1] == '/')
}

/// `path` with a leading `~` component replaced by `user_dir`; `None` when it
/// needs a user directory and there is none.
pub open spec fn expanded(path: Seq<char>, user_dir: Option<Seq<char>>) -> Option<Seq<char>> {
    if is_home_relative(path) {
        match user_dir {
            Some(home) => Some(path_join(home, strip_slashes(path.drop_first()))),
            None => None,
        }
    } else {
        Some(path)
    }
}

/// The default library directory under `user_dir`.
pub open spec fn default_library(user_dir: Seq<char>) -> Seq<char> {
    path_join(path_join(path_join(user_dir, ".config"@), APP_NAME@), "lib"@)
}

/// Value of one decimal digit.
pub open spec fn digit_value(c: char) -> int {
    c as int - '0' as int
}

/// All characters are ASCII digits.
pub open spec fn all_digits(s: Seq<char>) -> bool {
    forall|i: int| 0 <= i < s.len() ==> '0' <= #[trigger] s[i] <= '9'
}

/// The number that the digits `s` write.
pub open spec fn decimal_value(s: Seq<char>) -> int
    decreases s.len(),
{
    if s.len() == 0 {
        0
    } else {
        decimal_value(s.drop_last()) * 10 + digit_value(s.last())
    }
}

/// A millisecond count as written: an optional `+` and at least one digit,
/// of a value that fits in 64 bits.
pub open spec fn parsed_millis(s: Seq<char>) -> Option<u64> {
    let digits = if s.len() > 0 && s[0] == '+' {
        s.drop_first()
    } else {
        s
    };
    if digits.len() > 0 && all_digits(digits) && decimal_value(digits) <= u64::MAX {
        Some(decimal_value(digits) as u64)
    } else {
        None
    }
}

/// Decimal digits of `n`.
pub open spec fn decimal(n: nat) -> Seq<char>
    decreases n,
{
    if n < 10 {
        seq![(n + '0' as nat) as char]
    } else {
        decimal(n / 10).push(((n % 10) + '0' as nat) as char)
    }
}

/// Text of the error for a library directory that cannot be reached.
pub open spec fn missing_library_text(path: Seq<char>) -> Seq<char> {
    "Library path "@ + path + " does not exist or can't be accessed"@
}

/// Text of the error for a chord timeout over the limit.
pub open spec fn timeout_text(ms: u64) -> Seq<char> {
    "Chord timeout cannot exceed 1000ms (got "@ + decimal(ms as nat) + "ms)"@
}

/// `s` cut at each `sep`: every piece, the last one included even when empty.
pub open spec fn pieces(s: Seq<char>, sep: char) -> Seq<Seq<char>>
    decreases s.len(),
{
    if s.len() == 0 {
        seq![Seq::empty()]
    } else {
        let p = pieces(s.drop_last(), sep);
        if s.last() == sep {
            p.push(Seq::empty())
        } else {
            p.update(p.len() - 1, p.last().push(s.last()))
        }
    }
}

/// A line without the `\r` of a `\r\n` ending.
pub open spec fn strip_cr(line: Seq<char>) -> Seq<char> {
    if line.len() > 0 && line.last() == '\r' {
        line.drop_last()
    } else {
        line
    }
}

/// The lines of `s` as `str::lines` gives them: cut at `\n`, a `\r` before
/// the `\n` dropped, and no empty line after a final `\n`.
pub open spec fn lines_of(s: Seq<char>) -> Seq<Seq<char>> {
    let p = pieces(s, '\n');
    let ended = p.drop_last().map_values(|l: Seq<char>| strip_cr(l));
    if p.last().len() == 0 {
        ended
    } else {
        ended.push(p.last())
    }
}

/// The settings `(library_path, chord_timeout)` after one line of the
/// settings file, or `None` when the line names a value that cannot be used.
/// A `;` starts a comment; blank lines, `[section]` lines, lines without `=`
/// and unknown keys change nothing; keys are read in lower case.
pub open spec fn ini_line(cfg: (Seq<char>, u64), line: Seq<char>, user_dir: Option<Seq<char>>) -> Option<
    (Seq<char>, u64),
> {
    let t = trimmed(line);
    let cut = first_of(t, ';');
    let body = trimmed(
        if cut < 0 {
            t
        } else {
            t.subrange(0, cut)
        },
    );
    if body.len() == 0 || body[0] == '[' {
        Some(cfg)
    } else {
        let eq = first_of(body, '=');
        if eq < 0 {
            Some(cfg)
        } else {
            let key = lower_of(trimmed(body.subrange(0, eq)));
            let value = trimmed(body.subrange(eq + 1, body.len() as int));
            if key == "library_path"@ {
                match expanded(value, user_dir) {
                    Some(path) => Some((path, cfg.1)),
                    None => None,
                }
            } else if key == "chord_timeout"@ {
                match parsed_millis(value) {
                    Some(ms) => Some((cfg.0, ms)),
                    None => None,
                }
            } else {
                Some(cfg)
            }
        }
    }
}

/// The settings after `lines`, in order; `None` from the first line that fails.
pub open spec fn ini_lines(cfg: (Seq<char>, u64), lines: Seq<Seq<char>>, user_dir: Option<Seq<char>>) -> Option<
    (Seq<char>, u64),
>
    decreases lines.len(),
{
    if lines.len() == 0 {
        Some(cfg)
    } else {
        match ini_lines(cfg, lines.drop_last(), user_dir) {
            Some(c) => ini_line(c, lines.last(), user_dir),
            None => None,
        }
    }
}

/// The settings as a pair of plain values.
pub open spec fn settings(cfg: &AppConfig) -> (Seq<char>, u64) {
    (cfg.library_path@, cfg.chord_timeout)
}

/// The optional user directory as a view.
pub open spec fn dir_view(user_dir: Option<&str>) -> Option<Seq<char>> {
    match user_dir {
        Some(d) => Some(d@),
        None => None,
    }
}

/// What `str::trim` returns: the text without leading and trailing white space.
pub uninterp spec fn trimmed(s: Seq<char>) -> Seq<char>;

/// What `str::to_lowercase` returns.
pub uninterp spec fn lower_of(s: Seq<char>) -> Seq<char>;

/// Relies on `str::trim`, which removes leading and trailing white space.
#[verifier::external_body]
pub(crate) fn trim(s: &str) -> (r: &str)
    ensures
        r@ == trimmed(s@),
{
    s.trim()
}

/// Relies on `str::to_lowercase`, whose result depends on the text alone.
#[verifier::external_body]
pub(crate) fn lowercase(s: &str) -> (r: String)
    ensures
        r@ == lower_of(s@),
{
    s.to_lowercase()
}

/// Relies on `u64`'s `Display`, which writes the decimal digits without sign
/// or padding.
#[verifier::external_body]
fn decimal_text(n: u64) -> (r: String)
    ensures
        r@ == decimal(n as nat),
{
    n.to_string()
}

impl AppConfig {
    /// Settings with the default library directory under `user_dir` and the
    /// default chord timeout; `MissingDirectory` without a user directory.
    pub fn defaults(user_dir: Option<&str>) -> (r: Result<AppConfig, ConfigError>)
        ensures
            match user_dir {
                Some(d) => r matches Ok(c) && c.library_path@ == default_library(d@)
                    && c.chord_timeout == DEFAULT_TIMEOUT_MS,
                None => r matches Err(ConfigError::MissingDirectory),
            },
    {
        let library_path = Self::default_library_path(user_dir)?;
        Ok(AppConfig { library_path, chord_timeout: DEFAULT_TIMEOUT_MS })
    }

    /// `<user_dir>/.config/chords/lib`; `MissingDirectory` without a user
    /// directory.
    pub fn default_library_path(user_dir: Option<&str>) -> (r: Result<String, ConfigError>)
        ensures
            match user_dir {
                Some(d) => r matches Ok(p) && p@ == default_library(d@),
                None => r matches Err(ConfigError::MissingDirectory),
            },
    {
        match user_dir {
            None => Err(ConfigError::MissingDirectory),
            Some(d) => {
                let config = join_path(d, ".config");
                let app = join_path(config.as_str(), APP_NAME);
                Ok(join_path(app.as_str(), "lib"))
            },
        }
    }

    /// Replaces a leading `~` component of `path` by `user_dir`; other paths
    /// are returned as they are.
    pub fn expand_path(path: &str, user_dir: Option<&str>) -> (r: Result<String, ConfigError>)
        ensures
            match expanded(path@, dir_view(user_dir)) {
                Some(p) => r matches Ok(s) && s@ == p,
                None => r matches Err(ConfigError::MissingDirectory),
            },
    {
        let n = path.unicode_len();
        let home_relative = n > 0 && path.get_char(0) == '~' && (n == 1 || path.get_char(1) == '/');
        if !home_relative {
            return Ok(String::from_str(path));
        }
        let home = match user_dir {
            Some(d) => d,
            None => return Err(ConfigError::MissingDirectory),
        };
        let mut start: usize = 1;
        while start < n && path.get_char(start) == '/'
            invariant
                1 <= start <= n,
                n == path@.len(),
                strip_slashes(path@.drop_first()) == strip_slashes(
                    path@.subrange(start as int, n as int),
                ),
            decreases n - start,
        {
            assert(path@.subrange(start as int, n as int).drop_first() =~= path@.subrange(
                start + 1,
                n as int,
            ));
            start = start + 1;
        }
        assert(strip_slashes(path@.subrange(start as int, n as int)) == path@.subrange(
            start as int,
            n as int,
        ));
        let rest = path.substring_char(start, n);
        Ok(join_path(home, rest))
    }

    /// Checks the settings: the library directory must exist (as
    /// `library_exists` reports) and the chord timeout must not exceed 1000 ms.
    pub fn validate(&self, library_exists: bool) -> (r: Result<(), ConfigError>)
        ensures
            !library_exists ==> (r matches Err(ConfigError::Validation(m)) && m@
                == missing_library_text(self.library_path@)),
            library_exists && self.chord_timeout > MAX_TIMEOUT_MS ==> (r matches Err(
                ConfigError::Validation(m),
            ) && m@ == timeout_text(self.chord_timeout)),
            library_exists && self.chord_timeout <= MAX_TIMEOUT_MS ==> r is Ok,
    {
        if !library_exists {
            let mut m = String::from_str("Library path ");
            m.append(self.library_path.as_str());
            m.append(" does not exist or can't be accessed");
            return Err(ConfigError::Validation(m));
        }
        if self.chord_timeout > MAX_TIMEOUT_MS {
            let mut m = String::from_str("Chord timeout cannot exceed 1000ms (got ");
            let digits = decimal_text(self.chord_timeout);
            m.append(digits.as_str());
            m.append("ms)");
            return Err(ConfigError::Validation(m));
        }
        Ok(())
    }

    /// Applies the settings file `content` line by line, stopping at the
    /// first line that fails.
    pub fn parse_ini(content: &str, config: &mut AppConfig, user_dir: Option<&str>) -> (r: Result<
        (),
        ConfigError,
    >)
        ensures
            match ini_lines(settings(old(config)), lines_of(content@), dir_view(user_dir)) {
                Some(c) => r is Ok && settings(final(config)) == c,
                None => r is Err,
            },
    {
        let lines = split_lines(content);
        let ghost init = settings(old(config));
        assert(init == settings(config));
        let ghost ls = line_views(lines@);
        let mut k: usize = 0;
        while k < lines.len()
            invariant
                k <= lines@.len(),
                ls == line_views(lines@),
                ls == lines_of(content@),
                init == settings(old(config)),
                ini_lines(init, ls.subrange(0, k as int), dir_view(user_dir)) == Some(
                    settings(config),
                ),
            decreases lines@.len() - k,
        {
            let ghost before = settings(config);
            assert(ls.subrange(0, k + 1).drop_last() =~= ls.subrange(0, k as int));
            let step = Self::apply_ini_line(lines[k], config, user_dir);
            assert(ls[k as int] == lines@[k as int]@);
            assert(ls.subrange(0, k + 1).last() == ls[k as int]);
            if let Err(e) = step {
                proof {
                    assert(ini_lines(init, ls.subrange(0, k + 1), dir_view(user_dir)) is None);
                    lemma_ini_fails_on(init, ls, k + 1, dir_view(user_dir));
                }
                return Err(e);
            }
            k = k + 1;
        }
        assert(ls.subrange(0, k as int) =~= ls);
        Ok(())
    }

    /// Applies one line of the settings file.
    pub fn apply_ini_line(line: &str, config: &mut AppConfig, user_dir: Option<&str>) -> (r: Result<
        (),
        ConfigError,
    >)
        ensures
            match ini_line(settings(old(config)), line@, dir_view(user_dir)) {
                Some(c) => r is Ok && settings(final(config)) == c,
                None => r is Err && settings(final(config)) == settings(old(config)),
            },
            r matches Err(e) ==> (e matches ConfigError::MissingDirectory || e matches ConfigError::InvalidTimeout(_)),
    {
        let t = trim(line);
        let body = match find_char(t, ';') {
            Some(i) => trim(t.substring_char(0, i)),
            None => trim(t),
        };
        let n = body.unicode_len();
        if n == 0 || body.get_char(0) == '[' {
            return Ok(());
        }
        let eq = match find_char(body, '=') {
            Some(i) => i,
            None => return Ok(()),
        };
        let key = lowercase(trim(body.substring_char(0, eq)));
        let value = trim(body.substring_char(eq + 1, n));
        if same_text(key.as_str(), "library_path") {
            let path = Self::expand_path(value, user_dir)?;
            config.library_path = path;
        } else if same_text(key.as_str(), "chord_timeout") {
            match parse_millis(value) {
                Some(ms) => {
                    config.chord_timeout = ms;
                },
                None => {
                    return Err(ConfigError::InvalidTimeout(String::from_str(value)));
                },
            }
        }
        Ok(())
    }
}

/// The views of a sequence of lines.
pub open spec fn line_views(v: Seq<&str>) -> Seq<Seq<char>> {
    v.map_values(|l: &str| l@)
}

/// Once a prefix of the lines fails, all of them fail.
proof fn lemma_ini_fails_on(
    cfg: (Seq<char>, u64),
    ls: Seq<Seq<char>>,
    k: int,
    user_dir: Option<Seq<char>>,
)
    requires
        0 <= k <= ls.len(),
        ini_lines(cfg, ls.subrange(0, k), user_dir) is None,
    ensures
        ini_lines(cfg, ls, user_dir) is None,
    decreases ls.len() - k,
{
    if k < ls.len() {
        assert(ls.subrange(0, k + 1).drop_last() =~= ls.subrange(0, k));
        lemma_ini_fails_on(cfg, ls, k + 1, user_dir);
    } else {
        assert(ls.subrange(0, k) =~= ls);
    }
}

/// The lines of `content`, as `lines_of` gives them.
pub(crate) fn split_lines<'a>(content: &'a str) -> (r: Vec<&'a str>)
    ensures
        line_views(r@) == lines_of(content@),
{
    let n = content.unicode_len();
    let ghost s = content@;
    let mut out: Vec<&'a str> = Vec::new();
    let mut start: usize = 0;
    let mut i: usize = 0;
    assert(s.subrange(0, 0) =~= Seq::<char>::empty());
    while i < n
        invariant
            n == s.len(),
            s == content@,
            start <= i <= n,
            pieces(s.subrange(0, i as int), '\n').len() >= 1,
            pieces(s.subrange(0, i as int), '\n').last() == s.subrange(start as int, i as int),
            line_views(out@) == pieces(s.subrange(0, i as int), '\n').drop_last().map_values(
                |l: Seq<char>| strip_cr(l),
            ),
        decreases n - i,
    {
        let ghost p = pieces(s.subrange(0, i as int), '\n');
        assert(s.subrange(0, i + 1).drop_last() =~= s.subrange(0, i as int));
        assert(s.subrange(0, i + 1).last() == s[i as int]);
        if content.get_char(i) == '\n' {
            let mut end = i;
            if end > start && content.get_char(end - 1) == '\r' {
                end = end - 1;
            }
            let line = content.substring_char(start, end);
            assert(line@ == strip_cr(s.subrange(start as int, i as int)));
            let ghost old_out = out@;
            out.push(line);
            assert(line_views(out@) =~= line_views(old_out).push(line@));
            assert(pieces(s.subrange(0, i + 1), '\n').drop_last() =~= p);
            assert(p =~= p.drop_last().push(p.last()));
            assert(p.map_values(|l: Seq<char>| strip_cr(l)) =~= p.drop_last().map_values(
                |l: Seq<char>| strip_cr(l),
            ).push(strip_cr(p.last())));
            assert(line_views(out@) =~= pieces(s.subrange(0, i + 1), '\n').drop_last().map_values(
                |l: Seq<char>| strip_cr(l),
            ));
            start = i + 1;
            assert(pieces(s.subrange(0, i + 1), '\n').last() =~= s.subrange(start as int, i + 1));
        } else {
            assert(pieces(s.subrange(0, i + 1), '\n').drop_last() =~= p.drop_last());
            assert(pieces(s.subrange(0, i + 1), '\n').last() =~= s.subrange(start as int, i + 1));
        }
        i = i + 1;
    }
    assert(s.subrange(0, n as int) =~= s);
    if start < n {
        let last = content.substring_char(start, n);
        out.push(last);
        assert(line_views(out@) =~= lines_of(s));
    } else {
        assert(line_views(out@) =~= lines_of(s));
    }
    out
}

/// The first position of `c` in `s`.
pub(crate) fn find_char(s: &str, c: char) -> (r: Option<usize>)
    ensures
        match r {
            Some(i) => i < s@.len() && i == first_of(s@, c),
            None => first_of(s@, c) == -1 && forall|j: int| 0 <= j < s@.len() ==> s@[j] != c,
        },
{
    let n = s.unicode_len();
    let mut i: usize = 0;
    while i < n
        invariant
            n == s@.len(),
            i <= n,
            forall|j: int| 0 <= j < i ==> s@[j] != c,
        decreases n - i,
    {
        if s.get_char(i) == c {
            let ghost k = first_of(s@, c);
            assert(0 <= i < s@.len() && s@[i as int] == c && (forall|j: int|
                0 <= j < i ==> s@[j] != c));
            assert(0 <= k < s@.len() && s@[k] == c);
            assert(k == i) by {
                if k < i {
                    assert(s@[k] != c);
                } else if k > i {
                    assert(s@[i as int] != c);
                }
            }
            return Some(i);
        }
        i = i + 1;
    }
    None
}

/// Whether two texts are equal.
pub(crate) fn same_text(a: &str, b: &str) -> (r: bool)
    ensures
        r == (a@ == b@),
{
    let n = a.unicode_len();
    if n != b.unicode_len() {
        return false;
    }
    let mut i: usize = 0;
    while i < n
        invariant
            n == a@.len(),
            n == b@.len(),
            i <= n,
            forall|j: int| 0 <= j < i ==> a@[j] == b@[j],
        decreases n - i,
    {
        if a.get_char(i) != b.get_char(i) {
            return false;
        }
        i = i + 1;
    }
    assert(a@ =~= b@);
    true
}

/// `a` joined with `b` as a path.
fn join_path(a: &str, b: &str) -> (r: String)
    ensures
        r@ == path_join(a@, b@),
{
    let mut out = String::from_str(a);
    let bn = b.unicode_len();
    if bn > 0 && b.get_char(0) == '/' {
        return String::from_str(b);
    }
    let an = a.unicode_len();
    if an == 0 || a.get_char(an - 1) == '/' {
        out.append(b);
    } else {
        out.append("/");
        out.append(b);
    }
    out
}

/// Reads a millisecond count: an optional `+`, then decimal digits.
pub fn parse_millis(s: &str) -> (r: Option<u64>)
    ensures
        r == parsed_millis(s@),
{
    let n = s.unicode_len();
    let start: usize = if n > 0 && s.get_char(0) == '+' {
        1
    } else {
        0
    };
    let ghost digits = s@.subrange(start as int, n as int);
    assert(digits =~= if s@.len() > 0 && s@[0] == '+' {
        s@.drop_first()
    } else {
        s@
    });
    if start == n {
        return None;
    }
    let mut value: u64 = 0;
    let mut i: usize = start;
    while i < n
        invariant
            n == s@.len(),
            start <= i <= n,
            digits == s@.subrange(start as int, n as int),
            digits.len() > 0,
            parsed_millis(s@) == (if all_digits(digits) && decimal_value(digits) <= u64::MAX {
                Some(decimal_value(digits) as u64)
            } else {
                None
            }),
            all_digits(s@.subrange(start as int, i as int)),
            value == decimal_value(s@.subrange(start as int, i as int)),
        decreases n - i,
    {
        let c = s.get_char(i);
        let ghost prefix = s@.subrange(start as int, i + 1);
        assert(prefix.drop_last() =~= s@.subrange(start as int, i as int));
        if c < '0' || c > '9' {
            assert(!all_digits(digits)) by {
                assert(digits[i - start] == c);
                assert(!('0' <= digits[i - start] <= '9'));
            }
            assert(parsed_millis(s@) is None);
            return None;
        }
        assert(all_digits(prefix)) by {
            assert forall|j: int| 0 <= j < prefix.len() implies '0' <= #[trigger] prefix[j]
                <= '9' by {
                if j < prefix.len() - 1 {
                    assert(prefix[j] == s@.subrange(start as int, i as int)[j]);
                }
            }
        }
        let d = (c as u32 - '0' as u32) as u64;
        let next = match value.checked_mul(10) {
            Some(v) => v.checked_add(d),
            None => None,
        };
        match next {
            Some(v) => {
                value = v;
            },
            None => {
                proof {
                    assert(digits.subrange(0, i - start + 1) =~= prefix);
                    if all_digits(digits) {
                        lemma_decimal_grows(digits, i - start);
                        assert(decimal_value(prefix) > u64::MAX);
                        assert(decimal_value(digits) > u64::MAX);
                    }
                }
                assert(parsed_millis(s@) is None);
                return None;
            },
        }
        i = i + 1;
    }
    assert(s@.subrange(start as int, n as int) == digits);
    Some(value)
}

/// A digit string is worth at least as much as its first `k + 1` digits.
proof fn lemma_decimal_grows(s: Seq<char>, k: int)
    requires
        0 <= k < s.len(),
        all_digits(s.subrange(0, k + 1)),
        all_digits(s),
    ensures
        decimal_value(s) >= decimal_value(s.subrange(0, k + 1)),
    decreases s.len(),
{
    if s.len() > k + 1 {
        let prefix = s.drop_last();
        assert(prefix.subrange(0, k + 1) =~= s.subrange(0, k + 1));
        assert(all_digits(prefix)) by {
            assert forall|j: int| 0 <= j < prefix.len() implies '0' <= #[trigger] prefix[j]
                <= '9' by {
                assert(prefix[j] == s[j]);
            }
        }
        lemma_decimal_grows(prefix, k);
        assert(decimal_value(prefix) >= 0) by {
            lemma_decimal_nonneg(prefix);
        }
        assert('0' <= s.last() <= '9') by {
            assert(s.last() == s[s.len() - 1]);
        }
    } else {
        assert(s.subrange(0, k + 1) =~= s);
    }
}

/// Digit strings are worth at least zero.
proof fn lemma_decimal_nonneg(s: Seq<char>)
    requires
        all_digits(s),
    ensures
        decimal_value(s) >= 0,
    decreases s.len(),
{
    if s.len() > 0 {
        let prefix = s.drop_last();
        assert(all_digits(prefix)) by {
            assert forall|j: int| 0 <= j < prefix.len() implies '0' <= #[trigger] prefix[j]
                <= '9' by {
                assert(prefix[j] == s[j]);
            }
        }
        lemma_decimal_nonneg(prefix);
        assert('0' <= s.last() <= '9') by {
            assert(s.last() == s[s.len() - 1]);
        }
    }
}

} // verus!
