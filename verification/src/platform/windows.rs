//! What the library knows of Windows: where its directories are, which of them
//! take administrator rights, and how arguments are written on a command line.
//!
//! Paths are texts here, joined and compared by the rules of Windows whatever
//! system the library runs on.

use super::{ElevateError, KnownDir};
use crate::text::{
    chars_of, has_prefix, lowercase, push_signed_decimal, replace_char, replaced, signed_decimal,
    texts_of, to_lowercase, trim_end, trim_end_of,
};
use vstd::prelude::*;

verus! {

/// `rest` below `base`, with one `\` between them.
pub open spec fn joined(base: Seq<char>, rest: Seq<char>) -> Seq<char> {
    trim_end_of(base, '\\').push('\\') + rest
}

/// `rest` below `base`, with one `\` between them.
pub fn join_win(base: &str, rest: &str) -> (r: String)
    ensures
        r@ == joined(base@, rest@),
{
    let mut r = trim_end(base, '\\');
    r.push('\\');
    r.append(rest);
    r
}

/// A path in the form in which paths are compared: `\` for `/`, no `\` at the
/// end, lower case.
pub open spec fn normalized(path: Seq<char>) -> Seq<char> {
    lowercase(trim_end_of(replaced(path, '/', '\\'), '\\'))
}

/// A path in the form in which paths are compared.
pub fn normalize(path: &str) -> (r: String)
    ensures
        r@ == normalized(path@),
{
    let backslashed = replace_char(path, '/', '\\');
    let trimmed = trim_end(backslashed.as_str(), '\\');
    to_lowercase(trimmed.as_str())
}

/// `path` is `base` or continues it after a `\`.
pub open spec fn under(path: Seq<char>, base: Seq<char>) -> bool {
    path == base || base.push('\\').is_prefix_of(path)
}

/// Whether `path` is `base` or lies below it. A sibling whose name only begins
/// like `base` does not.
pub fn is_under(path: &str, base: &str) -> (r: bool)
    ensures
        r == under(path@, base@),
{
    let mut below = base.to_owned();
    below.push('\\');
    crate::text::same_text(path, base) || has_prefix(path, below.as_str())
}

/// The directories of one Windows user.
pub struct WindowsPlatform {
    /// Temporary files of the user.
    pub user_temp: String,
    /// Temporary files of the system.
    pub system_temp: String,
    /// Application data of the user.
    pub local_app_data: String,
    /// The browser cache.
    pub cache: String,
    /// The recycle bin.
    pub recycle_bin: String,
    /// Downloads.
    pub downloads: String,
    /// The thumbnail cache.
    pub thumbnail_cache: String,
    /// Downloaded system updates.
    pub windows_update_cache: String,
    /// Files kept for update delivery between machines.
    pub delivery_optimization_cache: String,
    /// Where settings are kept.
    pub config_dir: String,
    /// The directories below which administrator rights are needed.
    pub admin_roots: Vec<String>,
}

/// The six directories that everything else is derived from.
pub struct WindowsDirs {
    pub user_temp: Seq<char>,
    pub local_app_data: Seq<char>,
    pub user_profile: Seq<char>,
    pub system_root: Seq<char>,
    pub system_drive: Seq<char>,
    pub app_data: Seq<char>,
}

impl WindowsDirs {
    /// Where `kind` is.
    pub open spec fn dir(self, kind: KnownDir) -> Seq<char> {
        match kind {
            KnownDir::UserTemp => self.user_temp,
            KnownDir::SystemTemp => joined(self.system_root, "Temp"@),
            KnownDir::LocalAppData => self.local_app_data,
            KnownDir::Cache => joined(self.local_app_data, "Microsoft\\Windows\\INetCache"@),
            KnownDir::RecycleBin => joined(self.system_drive, "$Recycle.Bin"@),
            KnownDir::Downloads => joined(self.user_profile, "Downloads"@),
            KnownDir::ThumbnailCache => joined(
                self.local_app_data,
                "Microsoft\\Windows\\Explorer"@,
            ),
            KnownDir::WindowsUpdateCache => joined(
                self.system_root,
                "SoftwareDistribution\\Download"@,
            ),
            KnownDir::DeliveryOptimizationCache => joined(
                self.system_root,
                "ServiceProfiles\\NetworkService\\AppData\\Local\\Microsoft\\Windows\\DeliveryOptimization\\Cache"@,
            ),
        }
    }

    /// Where settings are kept.
    pub open spec fn settings(self) -> Seq<char> {
        joined(self.app_data, "pc-cleaner"@)
    }

    /// The directories below which administrator rights are needed.
    pub open spec fn admin_roots(self) -> Seq<Seq<char>> {
        seq![
            self.system_root,
            joined(self.system_drive, "Program Files"@),
            joined(self.system_drive, "Program Files (x86)"@),
            joined(self.system_drive, "ProgramData"@),
        ]
    }
}

impl WindowsPlatform {
    /// The directory held for `kind`.
    pub open spec fn dir(self, kind: KnownDir) -> Seq<char> {
        match kind {
            KnownDir::UserTemp => self.user_temp@,
            KnownDir::SystemTemp => self.system_temp@,
            KnownDir::LocalAppData => self.local_app_data@,
            KnownDir::Cache => self.cache@,
            KnownDir::RecycleBin => self.recycle_bin@,
            KnownDir::Downloads => self.downloads@,
            KnownDir::ThumbnailCache => self.thumbnail_cache@,
            KnownDir::WindowsUpdateCache => self.windows_update_cache@,
            KnownDir::DeliveryOptimizationCache => self.delivery_optimization_cache@,
        }
    }

    /// The administrator roots, as texts.
    pub open spec fn roots(self) -> Seq<Seq<char>> {
        texts_of(self.admin_roots@)
    }

    /// Every directory is derived from `dirs`.
    pub open spec fn follows(self, dirs: WindowsDirs) -> bool {
        &&& forall|kind: KnownDir| #[trigger] self.dir(kind) == dirs.dir(kind)
        &&& self.config_dir@ == dirs.settings()
        &&& self.roots() == dirs.admin_roots()
    }

    /// `path` lies in an administrator area.
    pub open spec fn admin_area(self, path: Seq<char>) -> bool {
        exists|i: int|
            0 <= i < self.admin_roots@.len() && under(
                normalized(path),
                normalized(#[trigger] self.admin_roots@[i]@),
            )
    }

    /// All directories, derived from the six given ones.
    pub fn from_dirs(
        user_temp: String,
        local_app_data: String,
        user_profile: String,
        system_root: String,
        system_drive: String,
        app_data: String,
    ) -> (r: WindowsPlatform)
        ensures
            r.follows(
                WindowsDirs {
                    user_temp: user_temp@,
                    local_app_data: local_app_data@,
                    user_profile: user_profile@,
                    system_root: system_root@,
                    system_drive: system_drive@,
                    app_data: app_data@,
                },
            ),
    {
        let ghost dirs = WindowsDirs {
            user_temp: user_temp@,
            local_app_data: local_app_data@,
            user_profile: user_profile@,
            system_root: system_root@,
            system_drive: system_drive@,
            app_data: app_data@,
        };
        let mut admin_roots: Vec<String> = Vec::new();
        admin_roots.push(system_root.clone());
        admin_roots.push(join_win(system_drive.as_str(), "Program Files"));
        admin_roots.push(join_win(system_drive.as_str(), "Program Files (x86)"));
        admin_roots.push(join_win(system_drive.as_str(), "ProgramData"));
        let r = WindowsPlatform {
            system_temp: join_win(system_root.as_str(), "Temp"),
            cache: join_win(local_app_data.as_str(), "Microsoft\\Windows\\INetCache"),
            recycle_bin: join_win(system_drive.as_str(), "$Recycle.Bin"),
            downloads: join_win(user_profile.as_str(), "Downloads"),
            thumbnail_cache: join_win(local_app_data.as_str(), "Microsoft\\Windows\\Explorer"),
            windows_update_cache: join_win(system_root.as_str(), "SoftwareDistribution\\Download"),
            delivery_optimization_cache: join_win(
                system_root.as_str(),
                "ServiceProfiles\\NetworkService\\AppData\\Local\\Microsoft\\Windows\\DeliveryOptimization\\Cache",
            ),
            config_dir: join_win(app_data.as_str(), "pc-cleaner"),
            user_temp,
            local_app_data,
            admin_roots,
        };
        assert(r.roots() =~= dirs.admin_roots());
        r
    }

    /// All directories, derived from the values of the environment variables
    /// `USERPROFILE`, `LOCALAPPDATA`, `TEMP`, `TMP`, `SystemRoot`, `SystemDrive`
    /// and `APPDATA`, with the usual places where one is not set.
    pub fn from_env(
        user_profile: Option<String>,
        local_app_data: Option<String>,
        temp: Option<String>,
        tmp: Option<String>,
        system_root: Option<String>,
        system_drive: Option<String>,
        app_data: Option<String>,
    ) -> (r: WindowsPlatform)
        ensures
            r.follows(env_dirs(user_profile, local_app_data, temp, tmp, system_root, system_drive, app_data)),
    {
        let profile = match user_profile {
            Some(s) => s,
            None => "C:\\Users\\Default".to_owned(),
        };
        let local = match local_app_data {
            Some(s) => s,
            None => join_win(profile.as_str(), "AppData\\Local"),
        };
        let user_temp = match temp {
            Some(s) => s,
            None => match tmp {
                Some(s) => s,
                None => join_win(local.as_str(), "Temp"),
            },
        };
        let root = match system_root {
            Some(s) => s,
            None => "C:\\Windows".to_owned(),
        };
        let drive = match system_drive {
            Some(s) => s,
            None => "C:".to_owned(),
        };
        let roaming = match app_data {
            Some(s) => s,
            None => join_win(profile.as_str(), "AppData\\Roaming"),
        };
        WindowsPlatform::from_dirs(user_temp, local, profile, root, drive, roaming)
    }

    /// Where `kind` is. Whether it exists is not looked at.
    pub fn resolve(&self, kind: KnownDir) -> (r: String)
        ensures
            r@ == self.dir(kind),
    {
        match kind {
            KnownDir::UserTemp => self.user_temp.clone(),
            KnownDir::SystemTemp => self.system_temp.clone(),
            KnownDir::LocalAppData => self.local_app_data.clone(),
            KnownDir::Cache => self.cache.clone(),
            KnownDir::RecycleBin => self.recycle_bin.clone(),
            KnownDir::Downloads => self.downloads.clone(),
            KnownDir::ThumbnailCache => self.thumbnail_cache.clone(),
            KnownDir::WindowsUpdateCache => self.windows_update_cache.clone(),
            KnownDir::DeliveryOptimizationCache => self.delivery_optimization_cache.clone(),
        }
    }

    /// Whether `path` lies in an administrator area, by its text alone.
    pub fn is_admin_path(&self, path: &str) -> (r: bool)
        ensures
            r == self.admin_area(path@),
    {
        let target = normalize(path);
        let mut i: usize = 0;
        while i < self.admin_roots.len()
            invariant
                i <= self.admin_roots@.len(),
                target@ == normalized(path@),
                forall|j: int|
                    0 <= j < i ==> !under(
                        normalized(path@),
                        normalized(#[trigger] self.admin_roots@[j]@),
                    ),
            decreases self.admin_roots@.len() - i,
        {
            let root = normalize(self.admin_roots[i].as_str());
            if is_under(target.as_str(), root.as_str()) {
                return true;
            }
            i = i + 1;
        }
        false
    }
}

/// `value`, or `fallback` where it is not set.
pub open spec fn or_text(value: Option<String>, fallback: Seq<char>) -> Seq<char> {
    match value {
        Some(s) => s@,
        None => fallback,
    }
}

/// The six directories that the environment variables name.
pub open spec fn env_dirs(
    user_profile: Option<String>,
    local_app_data: Option<String>,
    temp: Option<String>,
    tmp: Option<String>,
    system_root: Option<String>,
    system_drive: Option<String>,
    app_data: Option<String>,
) -> WindowsDirs {
    let profile = or_text(user_profile, "C:\\Users\\Default"@);
    let local = or_text(local_app_data, joined(profile, "AppData\\Local"@));
    WindowsDirs {
        user_temp: or_text(temp, or_text(tmp, joined(local, "Temp"@))),
        local_app_data: local,
        user_profile: profile,
        system_root: or_text(system_root, "C:\\Windows"@),
        system_drive: or_text(system_drive, "C:"@),
        app_data: or_text(app_data, joined(profile, "AppData\\Roaming"@)),
    }
}

/// A sibling whose name only begins like `base` is not under it: what follows
/// `base` has to start with a separator.
pub proof fn sibling_is_not_under(base: Seq<char>, rest: Seq<char>)
    requires
        rest.len() > 0,
        rest[0] != '\\',
    ensures
        !under(base + rest, base),
{
    assert((base + rest).len() != base.len());
    if base.push('\\').is_prefix_of(base + rest) {
        assert((base + rest).subrange(0, (base.len() + 1) as int)[base.len() as int] == rest[0]);
        assert(base.push('\\')[base.len() as int] == '\\');
    }
}

/// What lies below a path that is under `base` is under `base` too.
pub proof fn under_is_transitive(path: Seq<char>, middle: Seq<char>, base: Seq<char>)
    requires
        under(path, middle),
        under(middle, base),
    ensures
        under(path, base),
{
    if path != middle && middle != base {
        let a = middle.push('\\');
        let b = base.push('\\');
        assert(path.subrange(0, a.len() as int) == a);
        assert(middle.subrange(0, b.len() as int) == b);
        assert(path.subrange(0, b.len() as int) =~= b) by {
            assert forall|i: int| 0 <= i < b.len() implies path[i] == b[i] by {
                assert(path[i] == path.subrange(0, a.len() as int)[i]);
                assert(a[i] == middle[i]);
                assert(middle[i] == middle.subrange(0, b.len() as int)[i]);
            }
        }
    }
}

// ---- Command lines ----

/// `n` backslashes.
pub open spec fn backslashes(n: nat) -> Seq<char> {
    Seq::new(n, |i: int| '\\')
}

/// How many backslashes `s` ends with.
pub open spec fn trailing_backslashes(s: Seq<char>) -> nat
    decreases s.len(),
{
    if s.len() > 0 && s.last() == '\\' {
        trailing_backslashes(s.drop_last()) + 1
    } else {
        0
    }
}

/// `s` as it stands between quotes: a quote is escaped by a backslash, and the
/// backslashes right before it are doubled.
pub open spec fn escaped(s: Seq<char>) -> Seq<char>
    decreases s.len(),
{
    if s.len() == 0 {
        s
    } else if s.last() == '"' {
        escaped(s.drop_last()) + backslashes(trailing_backslashes(s.drop_last()) + 1) + seq!['"']
    } else {
        escaped(s.drop_last()).push(s.last())
    }
}

/// `arg` holds a character that does not survive without quotes.
pub open spec fn needs_quotes(arg: Seq<char>) -> bool {
    arg.contains(' ') || arg.contains('\t') || arg.contains('"')
}

/// `arg` as it is written on a command line: as it is where nothing in it needs
/// quotes, else between quotes, with the backslashes before the closing quote
/// doubled.
pub open spec fn quoted(arg: Seq<char>) -> Seq<char> {
    if arg.len() == 0 {
        seq!['"', '"']
    } else if !needs_quotes(arg) {
        arg
    } else {
        seq!['"'] + escaped(arg) + backslashes(trailing_backslashes(arg)) + seq!['"']
    }
}

/// The arguments as one command line, with one space between two of them.
pub open spec fn command_line(args: Seq<Seq<char>>) -> Seq<char>
    decreases args.len(),
{
    if args.len() == 0 {
        Seq::empty()
    } else if args.len() == 1 {
        quoted(args[0])
    } else {
        command_line(args.drop_last()).push(' ') + quoted(args.last())
    }
}

fn push_backslashes(out: &mut String, n: usize)
    ensures
        final(out)@ == old(out)@ + backslashes(n as nat),
{
    let mut i: usize = 0;
    assert(out@ =~= old(out)@ + backslashes(0));
    while i < n
        invariant
            i <= n,
            out@ == old(out)@ + backslashes(i as nat),
        decreases n - i,
    {
        out.push('\\');
        i = i + 1;
        assert(out@ =~= old(out)@ + backslashes(i as nat));
    }
}

/// `arg` as it is written on a command line, so that the program that is
/// started reads it back unchanged.
pub fn quote_arg(arg: &str) -> (r: String)
    ensures
        r@ == quoted(arg@),
{
    let chars = chars_of(arg);
    let mut out = String::new();
    if chars.len() == 0 {
        out.push('"');
        out.push('"');
        assert(out@ =~= quoted(arg@));
        return out;
    }
    if !crate::text::contains_char(arg, ' ') && !crate::text::contains_char(arg, '\t')
        && !crate::text::contains_char(arg, '"') {
        return arg.to_owned();
    }
    out.push('"');
    let mut run: usize = 0;
    let mut i: usize = 0;
    assert(chars@.take(0) =~= Seq::<char>::empty());
    assert(out@ =~= seq!['"'] + escaped(chars@.take(0)));
    while i < chars.len()
        invariant
            i <= chars@.len(),
            run <= i,
            run == trailing_backslashes(chars@.take(i as int)),
            out@ == seq!['"'] + escaped(chars@.take(i as int)),
        decreases chars@.len() - i,
    {
        let c = chars[i];
        let ghost before = out@;
        assert(chars@.take(i + 1).drop_last() =~= chars@.take(i as int));
        assert(chars@.take(i + 1).last() == c);
        if c == '\\' {
            run = run + 1;
            out.push('\\');
        } else if c == '"' {
            push_backslashes(&mut out, run);
            out.push('\\');
            out.push('"');
            assert(out@ =~= before + backslashes((run + 1) as nat) + seq!['"']);
            run = 0;
        } else {
            run = 0;
            out.push(c);
        }
        i = i + 1;
        assert(out@ =~= seq!['"'] + escaped(chars@.take(i as int)));
    }
    assert(chars@.take(i as int) =~= chars@);
    push_backslashes(&mut out, run);
    out.push('"');
    assert(out@ =~= quoted(arg@));
    out
}

/// The arguments as one command line.
pub fn join_args(args: &[String]) -> (r: String)
    ensures
        r@ == command_line(texts_of(args@)),
{
    let mut out = String::new();
    let mut i: usize = 0;
    assert(out@ =~= command_line(texts_of(args@).take(0)));
    while i < args.len()
        invariant
            i <= args@.len(),
            out@ == command_line(texts_of(args@).take(i as int)),
        decreases args@.len() - i,
    {
        let ghost before = texts_of(args@).take(i as int);
        let ghost after = texts_of(args@).take(i + 1);
        assert(after.drop_last() =~= before);
        assert(after.last() == args@[i as int]@);
        let q = quote_arg(args[i].as_str());
        if i > 0 {
            out.push(' ');
        }
        out.append(q.as_str());
        if i == 0 {
            assert(before =~= Seq::<Seq<char>>::empty());
            assert(out@ =~= q@);
        }
        assert(out@ =~= command_line(after));
        i = i + 1;
    }
    assert(texts_of(args@).take(i as int) =~= texts_of(args@));
    out
}

/// How far a command line has been read.
pub struct ArgReader {
    /// The arguments that are complete.
    pub done: Seq<Seq<char>>,
    /// The argument that is being read, if one has begun.
    pub current: Option<Seq<char>>,
    /// Inside quotes.
    pub in_quotes: bool,
    /// Backslashes whose meaning the next character decides.
    pub pending: nat,
}

impl ArgReader {
    /// Nothing has been read.
    pub open spec fn start() -> ArgReader {
        ArgReader { done: Seq::empty(), current: None, in_quotes: false, pending: 0 }
    }

    /// The characters of the argument that is being read.
    pub open spec fn gathered(self) -> Seq<char> {
        match self.current {
            Some(s) => s,
            None => Seq::empty(),
        }
    }

    /// The argument that is being read, its pending backslashes taken as they are.
    pub open spec fn literal(self) -> Seq<char> {
        self.gathered() + backslashes(self.pending)
    }

    /// The reader after `c`. Backslashes are literal unless a quote follows:
    /// then two of them stand for one, and one that is left over makes the
    /// quote literal. Any other quote opens or closes a quoted stretch. A space
    /// or tab outside quotes ends an argument.
    pub open spec fn step(self, c: char) -> ArgReader {
        if c == '\\' {
            ArgReader { current: Some(self.gathered()), pending: self.pending + 1, ..self }
        } else if c == '"' {
            let kept = self.gathered() + backslashes(self.pending / 2);
            if self.pending % 2 == 1 {
                ArgReader { current: Some(kept.push('"')), pending: 0, ..self }
            } else {
                ArgReader { current: Some(kept), in_quotes: !self.in_quotes, pending: 0, ..self }
            }
        } else if (c == ' ' || c == '\t') && !self.in_quotes {
            match self.current {
                Some(_) => ArgReader {
                    done: self.done.push(self.literal()),
                    current: None,
                    in_quotes: false,
                    pending: 0,
                },
                None => self,
            }
        } else {
            ArgReader { current: Some(self.literal().push(c)), pending: 0, ..self }
        }
    }

    /// The reader after all of `line`.
    pub open spec fn read(self, line: Seq<char>) -> ArgReader
        decreases line.len(),
    {
        if line.len() == 0 {
            self
        } else {
            self.read(line.drop_last()).step(line.last())
        }
    }

    /// The arguments, once the line has ended.
    pub open spec fn args(self) -> Seq<Seq<char>> {
        match self.current {
            Some(_) => self.done.push(self.literal()),
            None => self.done,
        }
    }
}

/// The arguments that a program reads from the command line `line`.
pub open spec fn read_args(line: Seq<char>) -> Seq<Seq<char>> {
    ArgReader::start().read(line).args()
}

proof fn read_concat(reader: ArgReader, a: Seq<char>, b: Seq<char>)
    ensures
        reader.read(a + b) == reader.read(a).read(b),
    decreases b.len(),
{
    if b.len() == 0 {
        assert(a + b =~= a);
    } else {
        assert((a + b).drop_last() =~= a + b.drop_last());
        assert((a + b).last() == b.last());
        read_concat(reader, a, b.drop_last());
    }
}

proof fn read_one(reader: ArgReader, c: char)
    ensures
        reader.read(seq![c]) == reader.step(c),
{
    assert(seq![c].drop_last() =~= Seq::<char>::empty());
    reveal_with_fuel(ArgReader::read, 2);
}

proof fn read_backslashes(reader: ArgReader, n: nat)
    requires
        reader.current is Some,
    ensures
        reader.read(backslashes(n)) == (ArgReader { pending: reader.pending + n, ..reader }),
    decreases n,
{
    if n > 0 {
        let m = (n - 1) as nat;
        assert(backslashes(n).drop_last() =~= backslashes(m));
        read_backslashes(reader, m);
    }
}

/// Reading an argument that needs no quotes gathers it as it is.
proof fn read_plain(reader: ArgReader, arg: Seq<char>)
    requires
        reader.current is None,
        !reader.in_quotes,
        reader.pending == 0,
        !needs_quotes(arg),
    ensures
        ({
            let after = reader.read(arg);
            &&& after.done == reader.done
            &&& !after.in_quotes
            &&& after.literal() == arg
            &&& (arg.len() > 0 ==> after.current is Some)
        }),
    decreases arg.len(),
{
    if arg.len() == 0 {
        assert(reader.literal() =~= arg);
    } else {
        let front = arg.drop_last();
        assert forall|c: char| front.contains(c) implies arg.contains(c) by {
            let i = choose|i: int| 0 <= i < front.len() && front[i] == c;
            assert(arg[i] == c);
        }
        read_plain(reader, front);
        let mid = reader.read(front);
        let c = arg.last();
        assert(arg[arg.len() - 1] == c);
        assert(arg.contains(c));
        assert(front.push(c) =~= arg);
        if c == '\\' {
            assert(backslashes(mid.pending + 1) =~= backslashes(mid.pending).push(c));
            assert(mid.step(c).literal() =~= mid.literal().push(c));
        } else {
            assert(mid.literal().push(c) =~= arg);
            assert(mid.step(c).literal() =~= arg);
        }
    }
}

/// Reading the escaped form of `s` inside quotes gathers `s`.
proof fn read_escaped(reader: ArgReader, s: Seq<char>)
    requires
        reader.current == Some(Seq::<char>::empty()),
        reader.in_quotes,
        reader.pending == 0,
    ensures
        ({
            let after = reader.read(escaped(s));
            &&& after.done == reader.done
            &&& after.in_quotes
            &&& after.current is Some
            &&& after.literal() == s
            &&& after.pending == trailing_backslashes(s)
        }),
    decreases s.len(),
{
    if s.len() == 0 {
        assert(reader.literal() =~= s);
    } else {
        let front = s.drop_last();
        let c = s.last();
        read_escaped(reader, front);
        let mid = reader.read(escaped(front));
        assert(front.push(c) =~= s);
        if c == '"' {
            let k = trailing_backslashes(front);
            let slashes = backslashes(k + 1);
            read_concat(reader, escaped(front) + slashes, seq!['"']);
            read_concat(reader, escaped(front), slashes);
            read_backslashes(mid, k + 1);
            let primed = mid.read(slashes);
            read_one(primed, '"');
            assert(primed.pending == 2 * k + 1);
            assert(primed.pending / 2 == k && primed.pending % 2 == 1) by (nonlinear_arith)
                requires
                    primed.pending == 2 * k + 1,
            ;
            let after = primed.step('"');
            assert(after.literal() =~= after.gathered());
            assert(after.gathered() =~= mid.literal().push('"'));
        } else {
            assert(escaped(s) == escaped(front).push(c));
            assert(escaped(front).push(c) =~= escaped(front) + seq![c]);
            read_concat(reader, escaped(front), seq![c]);
            read_one(mid, c);
            assert(mid.step(c).literal() =~= s);
        }
    }
}

/// Reading one quoted argument gathers the argument and leaves no quote open.
proof fn read_quoted(reader: ArgReader, arg: Seq<char>)
    requires
        reader.current is None,
        !reader.in_quotes,
        reader.pending == 0,
    ensures
        ({
            let after = reader.read(quoted(arg));
            &&& after.done == reader.done
            &&& after.current is Some
            &&& !after.in_quotes
            &&& after.literal() == arg
        }),
{
    if arg.len() == 0 {
        assert(seq!['"', '"'] =~= seq!['"'] + seq!['"']);
        read_concat(reader, seq!['"'], seq!['"']);
        read_one(reader, '"');
        read_one(reader.step('"'), '"');
        let after = reader.read(quoted(arg));
        assert(after.literal() =~= arg);
    } else if !needs_quotes(arg) {
        read_plain(reader, arg);
    } else {
        let k = trailing_backslashes(arg);
        let open = seq!['"'];
        read_concat(reader, open + escaped(arg) + backslashes(k), seq!['"']);
        read_concat(reader, open + escaped(arg), backslashes(k));
        read_concat(reader, open, escaped(arg));
        read_one(reader, '"');
        let opened = reader.step('"');
        assert(opened.gathered() =~= Seq::<char>::empty());
        read_escaped(opened, arg);
        let inner = opened.read(escaped(arg));
        read_backslashes(inner, k);
        let primed = inner.read(backslashes(k));
        read_one(primed, '"');
        assert(primed.pending == 2 * k);
        assert(primed.pending / 2 == k && primed.pending % 2 == 0) by (nonlinear_arith)
            requires
                primed.pending == 2 * k,
        ;
        let after = primed.step('"');
        assert(after.literal() =~= inner.literal());
    }
}

proof fn read_line(args: Seq<Seq<char>>)
    requires
        args.len() > 0,
    ensures
        ({
            let after = ArgReader::start().read(command_line(args));
            &&& after.done == args.drop_last()
            &&& after.current is Some
            &&& !after.in_quotes
            &&& after.literal() == args.last()
        }),
    decreases args.len(),
{
    let start = ArgReader::start();
    if args.len() == 1 {
        read_quoted(start, args[0]);
        assert(args.drop_last() =~= Seq::<Seq<char>>::empty());
    } else {
        let front = args.drop_last();
        let line = command_line(front);
        read_line(front);
        read_concat(start, line.push(' '), quoted(args.last()));
        assert(line.push(' ') =~= line + seq![' ']);
        read_concat(start, line, seq![' ']);
        read_one(start.read(line), ' ');
        let between = start.read(line).step(' ');
        assert(between.done =~= front);
        read_quoted(between, args.last());
    }
}

/// A program reads back exactly the arguments that were joined into its command
/// line, whatever characters they hold.
pub proof fn joined_args_read_back(args: Seq<Seq<char>>)
    ensures
        read_args(command_line(args)) == args,
{
    if args.len() > 0 {
        read_line(args);
        assert(args.drop_last().push(args.last()) =~= args);
    } else {
        assert(read_args(command_line(args)) =~= args);
    }
}

// ---- Errors of the system ----

/// `hresult` is the form in which the system reports its error `code`: the
/// unsigned reading of `hresult` is the base of such reports plus the low
/// sixteen bits of `code`.
pub open spec fn reports(hresult: i32, code: u32) -> bool {
    let unsigned = if hresult < 0 {
        hresult + 0x1_0000_0000
    } else {
        hresult as int
    };
    unsigned == 0x8007_0000 + code % 0x1_0000
}

/// Whether `hresult` reports the system's error `code`.
pub fn is_win32_error(hresult: i32, code: u32) -> (r: bool)
    ensures
        r == reports(hresult, code),
{
    assert(0x8007_0000u32 | (code & 0xFFFF) == 0x8007_0000 + code % 0x1_0000) by (bit_vector);
    assert(hresult < 0 ==> hresult as u32 == hresult + 0x1_0000_0000) by (bit_vector);
    assert(hresult >= 0 ==> hresult as u32 == hresult) by (bit_vector);
    (hresult as u32) == (0x8007_0000 | (code & 0xFFFF))
}

/// The text for an error that the system reported as `code` with `message`.
pub open spec fn elevate_error_text(message: Seq<char>, code: i32) -> Seq<char> {
    message + " (code "@ + signed_decimal(code as int) + ")"@
}

/// The text for an error that the system reported as `code` with `message`.
pub fn elevate_error_message(message: &str, code: i32) -> (r: String)
    ensures
        r@ == elevate_error_text(message@, code),
{
    let mut r = message.to_owned();
    r.append(" (code ");
    push_signed_decimal(&mut r, code);
    r.append(")");
    r
}

/// The error code of a prompt that the user declined.
pub const ERROR_CANCELLED: u32 = 1223;

/// What starting again with administrator rights failed with, when the system
/// reported `hresult` with `message`: the user's refusal is told apart from
/// every other failure.
pub fn runas_error(hresult: i32, message: &str) -> (r: ElevateError)
    ensures
        reports(hresult, ERROR_CANCELLED) ==> r == ElevateError::Cancelled,
        !reports(hresult, ERROR_CANCELLED) ==> r is Failed && r->Failed_0@ == elevate_error_text(
            message@,
            hresult,
        ),
{
    if is_win32_error(hresult, ERROR_CANCELLED) {
        ElevateError::Cancelled
    } else {
        ElevateError::Failed(elevate_error_message(message, hresult))
    }
}

/// Why the system's trash did not take an item.
#[derive(Debug)]
pub enum TrashError {
    /// The item is a drive or root folder.
    TargetedRoot,
    /// The item could not be accessed.
    CouldNotAccess {
        /// The item.
        target: String,
    },
    /// The system refused.
    Os {
        /// The system's error code.
        code: i32,
        /// The system's description.
        description: String,
    },
    /// The path could not be resolved.
    CanonicalizePath {
        /// The path, as it is shown.
        original: String,
    },
    /// The name holds characters that cannot be handled.
    ConvertOsString,
    /// Anything else that came with a description.
    Unknown {
        /// The description.
        description: String,
    },
    /// Anything else.
    Other,
}

impl TrashError {
    /// The sentence that is shown for the error.
    pub open spec fn text(self) -> Seq<char> {
        match self {
            TrashError::TargetedRoot => {
                "ドライブ直下やルートフォルダは安全のためゴミ箱に送れません。"@
            },
            TrashError::CouldNotAccess { target } => {
                target@ + " にアクセスできませんでした。別のアプリで使用中か、アクセス権限が不足している可能性があります。"@
            },
            TrashError::Os { code, description } => {
                "OS がゴミ箱操作を拒否しました（コード "@ + signed_decimal(code as int) + ": "@
                    + description@
                    + "）。他のアプリで使用中でないか、アクセス権限を確認してください。"@
            },
            TrashError::CanonicalizePath { original } => {
                original@ + " のパスを解決できませんでした。ファイルが移動または削除された可能性があります。"@
            },
            TrashError::ConvertOsString => {
                "ファイル名に扱えない文字が含まれているため処理できませんでした。"@
            },
            TrashError::Unknown { description } => {
                "ゴミ箱への移動に失敗しました（"@ + description@
                    + "）。別のアプリがファイルを使用しているか、アクセス権限がない可能性があります。しばらく待つか、該当のアプリを閉じてから再試行してください。"@
            },
            TrashError::Other => "ゴミ箱への移動中に予期しないエラーが発生しました。"@,
        }
    }
}

/// The sentence that is shown for `err`.
pub fn trash_error_message(err: &TrashError) -> (r: String)
    ensures
        r@ == err.text(),
{
    match err {
        TrashError::TargetedRoot => {
            "ドライブ直下やルートフォルダは安全のためゴミ箱に送れません。".to_owned()
        },
        TrashError::CouldNotAccess { target } => {
            target.clone().concat(
                " にアクセスできませんでした。別のアプリで使用中か、アクセス権限が不足している可能性があります。",
            )
        },
        TrashError::Os { code, description } => {
            let mut r = "OS がゴミ箱操作を拒否しました（コード ".to_owned();
            push_signed_decimal(&mut r, *code);
            r.append(": ");
            r.append(description.as_str());
            r.append("）。他のアプリで使用中でないか、アクセス権限を確認してください。");
            r
        },
        TrashError::CanonicalizePath { original } => {
            original.clone().concat(
                " のパスを解決できませんでした。ファイルが移動または削除された可能性があります。",
            )
        },
        TrashError::ConvertOsString => {
            "ファイル名に扱えない文字が含まれているため処理できませんでした。".to_owned()
        },
        TrashError::Unknown { description } => {
            let mut r = "ゴミ箱への移動に失敗しました（".to_owned();
            r.append(description.as_str());
            r.append(
                "）。別のアプリがファイルを使用しているか、アクセス権限がない可能性があります。しばらく待つか、該当のアプリを閉じてから再試行してください。",
            );
            r
        },
        TrashError::Other => "ゴミ箱への移動中に予期しないエラーが発生しました。".to_owned(),
    }
}

// ---- What holds of places ----

/// A place is under another if it is that place, or if what follows that place
/// in it starts with a separator.
pub proof fn what_is_under_a_place(path: Seq<char>, base: Seq<char>)
    ensures
        under(path, base) <==> path.len() >= base.len() && path.take(base.len() as int) == base && (
        path.len() == base.len() || path[base.len() as int] == '\\'),
{
    let n = base.len() as int;
    if path.len() >= base.len() && path.take(n) == base {
        if path.len() == base.len() {
            assert(path.take(n) =~= path);
        } else if path[n] == '\\' {
            assert(path.take(n + 1) =~= base.push('\\'));
            assert(base.push('\\') =~= path.take(base.push('\\').len() as int));
        }
    }
    if under(path, base) {
        if path == base {
            assert(path.take(n) =~= base);
        } else {
            let longer = base.push('\\');
            assert(longer =~= path.take(longer.len() as int));
            assert(longer[n] == path[n]);
            assert forall|i: int| 0 <= i < n implies #[trigger] path[i] == base[i] by {
                assert(longer[i] == path.take(longer.len() as int)[i]);
            }
            assert(path.take(n) =~= base);
        }
    }
}

/// A name is joined to a place with exactly one separator, however many the
/// place ends with.
pub proof fn places_are_joined_with_one_separator(base: Seq<char>, rest: Seq<char>) -> (b: int)
    ensures
        0 <= b <= base.len(),
        forall|i: int| b <= i < base.len() ==> #[trigger] base[i] == '\\',
        b > 0 ==> base[b - 1] != '\\',
        joined(base, rest) == base.take(b) + seq!['\\'] + rest,
{
    let b = crate::text::trimming_the_end_takes_one_character(base, '\\');
    assert(joined(base, rest) =~= base.take(b) + seq!['\\'] + rest);
    b
}

/// Neither the kind of the separators nor those at the end matter to what a
/// place is.
pub proof fn separators_do_not_matter(a: Seq<char>, b: Seq<char>)
    requires
        a.len() == b.len(),
        forall|i: int|
            0 <= i < a.len() ==> #[trigger] a[i] == b[i] || (a[i] == '/' && b[i] == '\\'),
    ensures
        normalized(a) == normalized(b),
        normalized(a.push('\\')) == normalized(a),
        normalized(a.push('/')) == normalized(a),
{
    assert(replaced(a, '/', '\\') =~= replaced(b, '/', '\\'));
    let x = replaced(a, '/', '\\');
    assert(replaced(a.push('\\'), '/', '\\') =~= x.push('\\'));
    assert(replaced(a.push('/'), '/', '\\') =~= x.push('\\'));
    assert(x.push('\\').drop_last() =~= x);
}

/// The directories of Windows, of programs and of their common data are
/// administrator areas, with all that is under them, and nothing else is.
pub proof fn which_areas_are_for_administrators(
    platform: WindowsPlatform,
    dirs: WindowsDirs,
    path: Seq<char>,
)
    requires
        platform.follows(dirs),
    ensures
        platform.admin_area(path) <==> under(normalized(path), normalized(dirs.system_root))
            || under(normalized(path), normalized(joined(dirs.system_drive, "Program Files"@)))
            || under(
            normalized(path),
            normalized(joined(dirs.system_drive, "Program Files (x86)"@)),
        ) || under(normalized(path), normalized(joined(dirs.system_drive, "ProgramData"@))),
{
    let roots = platform.roots();
    assert(roots.len() == 4);
    assert(roots[0] == dirs.system_root);
    assert(roots[1] == joined(dirs.system_drive, "Program Files"@));
    assert(roots[2] == joined(dirs.system_drive, "Program Files (x86)"@));
    assert(roots[3] == joined(dirs.system_drive, "ProgramData"@));
    assert(platform.admin_roots@.len() == 4);
    assert(platform.admin_roots@[0]@ == roots[0]);
    assert(platform.admin_roots@[1]@ == roots[1]);
    assert(platform.admin_roots@[2]@ == roots[2]);
    assert(platform.admin_roots@[3]@ == roots[3]);
}

/// Where a variable of the environment is set, the directory that it names is
/// used.
pub proof fn set_variables_are_used(
    user_profile: Option<String>,
    local_app_data: Option<String>,
    temp: Option<String>,
    tmp: Option<String>,
    system_root: Option<String>,
    system_drive: Option<String>,
    app_data: Option<String>,
)
    ensures
        ({
            let dirs = env_dirs(
                user_profile,
                local_app_data,
                temp,
                tmp,
                system_root,
                system_drive,
                app_data,
            );
            &&& user_profile is Some ==> dirs.user_profile == user_profile->0@
            &&& user_profile is None ==> dirs.user_profile == "C:\\Users\\Default"@
            &&& local_app_data is Some ==> dirs.local_app_data == local_app_data->0@
            &&& local_app_data is None ==> dirs.local_app_data == joined(
                dirs.user_profile,
                "AppData\\Local"@,
            )
            &&& temp is Some ==> dirs.user_temp == temp->0@
            &&& temp is None && tmp is Some ==> dirs.user_temp == tmp->0@
            &&& temp is None && tmp is None ==> dirs.user_temp == joined(
                dirs.local_app_data,
                "Temp"@,
            )
            &&& system_root is Some ==> dirs.system_root == system_root->0@
            &&& system_root is None ==> dirs.system_root == "C:\\Windows"@
            &&& system_drive is Some ==> dirs.system_drive == system_drive->0@
            &&& system_drive is None ==> dirs.system_drive == "C:"@
            &&& app_data is Some ==> dirs.app_data == app_data->0@
            &&& app_data is None ==> dirs.app_data == joined(
                dirs.user_profile,
                "AppData\\Roaming"@,
            )
        }),
{
}

/// The directories that rules look into lie where Windows keeps them: those of
/// the user under the user's own directories, those of the system under its own.
pub proof fn where_rules_look(dirs: WindowsDirs)
    ensures
        dirs.dir(KnownDir::UserTemp) == dirs.user_temp,
        dirs.dir(KnownDir::LocalAppData) == dirs.local_app_data,
        dirs.dir(KnownDir::Downloads) == joined(dirs.user_profile, "Downloads"@),
        dirs.dir(KnownDir::Cache) == joined(
            dirs.local_app_data,
            "Microsoft\\Windows\\INetCache"@,
        ),
        dirs.dir(KnownDir::ThumbnailCache) == joined(
            dirs.local_app_data,
            "Microsoft\\Windows\\Explorer"@,
        ),
        dirs.dir(KnownDir::RecycleBin) == joined(dirs.system_drive, "$Recycle.Bin"@),
        dirs.dir(KnownDir::SystemTemp) == joined(dirs.system_root, "Temp"@),
        dirs.dir(KnownDir::WindowsUpdateCache) == joined(
            dirs.system_root,
            "SoftwareDistribution\\Download"@,
        ),
        dirs.dir(KnownDir::DeliveryOptimizationCache) == joined(
            dirs.system_root,
            "ServiceProfiles\\NetworkService\\AppData\\Local\\Microsoft\\Windows\\DeliveryOptimization\\Cache"@,
        ),
        dirs.settings() == joined(dirs.app_data, "pc-cleaner"@),
{
}

/// A result code reports an error of the system if it is that error with the
/// mark of the system's errors before it.
pub proof fn which_codes_are_reported(hresult: i32, code: u32)
    requires
        code < 0x1_0000,
    ensures
        reports(hresult, code) <==> hresult == -0x7ff9_0000 + code,
{
}

/// An argument is written as it is unless it is empty or holds a space, a tab or
/// a quotation mark; then it stands in quotation marks.
pub proof fn which_arguments_are_quoted(arg: Seq<char>)
    ensures
        ({
            let special = exists|i: int|
                0 <= i < arg.len() && (#[trigger] arg[i] == ' ' || arg[i] == '\t' || arg[i] == '"');
            &&& arg.len() > 0 && !special ==> quoted(arg) == arg
            &&& arg.len() == 0 || special ==> quoted(arg).len() >= 2 && quoted(arg)[0] == '"'
                && quoted(arg).last() == '"'
        }),
{
    if needs_quotes(arg) {
        let i = if arg.contains(' ') {
            arg.index_of(' ')
        } else if arg.contains('\t') {
            arg.index_of('\t')
        } else {
            arg.index_of('"')
        };
        assert(arg[i] == ' ' || arg[i] == '\t' || arg[i] == '"');
    } else {
        assert forall|i: int| 0 <= i < arg.len() implies !(#[trigger] arg[i] == ' ' || arg[i]
            == '\t' || arg[i] == '"') by {
            assert(arg.contains(arg[i]));
        }
    }
}

} // verus!
