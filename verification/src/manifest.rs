//! What a project says it can do, read off the files already in its directory.
//!
//! The point is a suggestion, not an import. An auto-added list of twelve npm
//! scripts is noise; the set a person actually runs is two or three. So this
//! offers a short list, the user taps one to run it, and running it is what
//! adds it. Nothing here is ever persisted.
use vstd::prelude::*;
use crate::text::{
    chars_of, contains_seq, contains_str, has_char, in_set, is_ascii_alnum, is_ascii_alpha,
    lead_count, lemma_lead_count, lines, push_all, push_str, seq_eq, slice, split_lines,
    split_once, split_once_char, starts_with, strip_prefix, strip_prefix_of, string_of, trim,
    trim_by, trim_set, trim_start_by, trim_start_set, trim_ws, views,
};

verus! {

/// More than this and a suggestion stops being a suggestion.
pub const MAX: usize = 6;

/// Which manifest a suggestion came from, so the menu can say
/// "FROM YOUR GEMFILE" rather than offering commands from nowhere.
#[derive(Debug)]
pub struct Suggestions {
    /// The file the commands were read from, for the menu header. Empty when
    /// there are none.
    pub source: String,
    pub commands: Vec<String>,
}

pub open spec fn strs(v: Seq<String>) -> Seq<Seq<char>> {
    v.map_values(|s: String| s@)
}

impl Suggestions {
    pub fn none() -> (s: Suggestions)
        ensures
            s.source@.len() == 0,
            s.commands@.len() == 0,
    {
        Suggestions { source: String::new(), commands: Vec::new() }
    }
}

/// What a project directory holds, as far as suggestions go: the text of each
/// manifest that exists and could be read, and whether the marker files
/// exist.
pub struct ProjectFiles {
    pub package_json: Option<String>,
    pub pnpm_lock: bool,
    pub yarn_lock: bool,
    pub gemfile: Option<String>,
    pub bin_rails: bool,
    pub rakefile: Option<String>,
    pub manage_py: bool,
    pub alembic_ini: bool,
    pub pyproject: Option<String>,
    pub makefile: Option<String>,
    pub cargo_toml: bool,
    pub go_mod: bool,
    pub composer_json: Option<String>,
}

// ---- JSON manifests -----------------------------------------------------------------

/// The keys of the object at top-level field `field` of the JSON document
/// `text`, in the order the document lists them; nothing when the text is not
/// JSON or the field is not an object. It names a chain of serde_json
/// calls: `from_str::<Value>`, `Value::get`, `Value::as_object`, then the
/// map's keys.
pub uninterp spec fn json_object_keys_of(text: Seq<char>, field: Seq<char>) -> Seq<Seq<char>>;

/// `serde_json::from_str::<Value>`, then the keys of `value[field]` when it
/// is an object (serde_json keeps keys in document order here).
#[verifier::external_body]
fn json_object_keys(text: &str, field: &str) -> (keys: Vec<String>)
    ensures
        strs(keys@) == json_object_keys_of(text@, field@),
{
    let Ok(value) = serde_json::from_str::<serde_json::Value>(text) else {
        return Vec::new();
    };
    value.get(field).and_then(|v| v.as_object()).map(|map| map.keys().cloned().collect()).unwrap_or_default()
}

/// Which package manager the lockfile implies. npm is the fallback because a
/// project with no lockfile at all is most often a fresh `npm init`.
pub open spec fn node_prefix_spec(pnpm_lock: bool, yarn_lock: bool) -> Seq<char> {
    if pnpm_lock {
        "pnpm"@
    } else if yarn_lock {
        "yarn"@
    } else {
        "npm run"@
    }
}

pub fn node_prefix(pnpm_lock: bool, yarn_lock: bool) -> (p: String)
    ensures
        p@ == node_prefix_spec(pnpm_lock, yarn_lock),
{
    if pnpm_lock {
        string_of(chars_of("pnpm").as_slice())
    } else if yarn_lock {
        string_of(chars_of("yarn").as_slice())
    } else {
        string_of(chars_of("npm run").as_slice())
    }
}

/// `<prefix> <item>` for each item.
pub open spec fn prefixed_all(prefix: Seq<char>, items: Seq<Seq<char>>) -> Seq<Seq<char>> {
    items.map_values(|s: Seq<char>| prefix + seq![' '] + s)
}

fn prefix_each(prefix: &str, items: &Vec<String>) -> (out: Vec<String>)
    ensures
        strs(out@) == prefixed_all(prefix@, strs(items@)),
{
    let mut out: Vec<String> = Vec::new();
    let mut i: usize = 0;
    while i < items.len()
        invariant
            i <= items@.len(),
            strs(out@) == prefixed_all(prefix@, strs(items@)).take(i as int),
        decreases items@.len() - i,
    {
        let mut c = chars_of(prefix);
        c.push(' ');
        push_str(&mut c, items[i].as_str());
        assert(c@ =~= prefix@ + seq![' '] + items@[i as int]@);
        let ghost before = strs(out@);
        out.push(string_of(c.as_slice()));
        assert(strs(items@)[i as int] == items@[i as int]@);
        assert(prefixed_all(prefix@, strs(items@))[i as int] == prefix@ + seq![' '] + items@[i as int]@);
        assert(strs(out@) =~= before.push(prefix@ + seq![' '] + items@[i as int]@));
        assert(prefixed_all(prefix@, strs(items@)).take(i + 1) =~= prefixed_all(prefix@, strs(items@)).take(
            i as int,
        ).push(prefix@ + seq![' '] + items@[i as int]@));
        i += 1;
    }
    assert(prefixed_all(prefix@, strs(items@)).take(i as int) =~= prefixed_all(prefix@, strs(items@)));
    out
}

// ---- TOML tables ---------------------------------------------------------------------

pub struct TomlScan {
    pub inside: bool,
    pub out: Seq<Seq<char>>,
}

/// A `[...]` header line opens the table when it is exactly `header` and
/// closes it otherwise; inside the table, a `key = ...` line that is not a
/// comment contributes its key, quotes and spaces trimmed, when one is left.
pub open spec fn toml_step(st: TomlScan, raw: Seq<char>, header: Seq<char>) -> TomlScan {
    let line = trim(raw);
    if starts_with(line, "["@) {
        TomlScan { inside: line == header, out: st.out }
    } else if !st.inside || starts_with(line, "#"@) {
        st
    } else {
        match split_once(line, '=') {
            Some((key, _)) => {
                let k = trim(trim_by(trim(key), in_set(seq!['"', '\''])));
                if k.len() > 0 {
                    TomlScan { inside: st.inside, out: st.out.push(k) }
                } else {
                    st
                }
            },
            None => st,
        }
    }
}

pub open spec fn toml_scan(ls: Seq<Seq<char>>, header: Seq<char>) -> TomlScan
    decreases ls.len(),
{
    if ls.len() == 0 {
        TomlScan { inside: false, out: Seq::empty() }
    } else {
        toml_step(toml_scan(ls.drop_last(), header), ls.last(), header)
    }
}

pub open spec fn toml_keys(text: Seq<char>, table: Seq<char>) -> Seq<Seq<char>> {
    toml_scan(lines(text), seq!['['] + table + seq![']']).out
}

/// The keys of one TOML table, without a TOML parser: a scan for the
/// `[table]` header and the `key =` lines under it.
pub fn toml_table_keys(text: &str, table: &str) -> (keys: Vec<String>)
    ensures
        strs(keys@) == toml_keys(text@, table@),
{
    let mut header: Vec<char> = Vec::new();
    header.push('[');
    push_str(&mut header, table);
    header.push(']');
    let ghost hv = seq!['['] + table@ + seq![']'];
    assert(header@ =~= hv);
    let quotes = vec!['"', '\''];
    let v = chars_of(text);
    let ls = split_lines(v.as_slice());
    let ghost all = lines(text@);
    let mut inside = false;
    let mut out: Vec<String> = Vec::new();
    let mut k: usize = 0;
    while k < ls.len()
        invariant
            k <= ls@.len(),
            views(ls@) == all,
            all == lines(text@),
            header@ == hv,
            quotes@ == seq!['"', '\''],
            inside == toml_scan(all.take(k as int), hv).inside,
            strs(out@) == toml_scan(all.take(k as int), hv).out,
        decreases ls@.len() - k,
    {
        assert(all.take(k + 1).drop_last() == all.take(k as int));
        assert(all.take(k + 1).last() == ls@[k as int]@);
        let line = trim_ws(ls[k].as_slice());
        let open = chars_of("[");
        let hash = chars_of("#");
        if crate::text::has_prefix(line.as_slice(), open.as_slice()) {
            inside = seq_eq(line.as_slice(), header.as_slice());
        } else if !inside || crate::text::has_prefix(line.as_slice(), hash.as_slice()) {
        } else {
            match split_once_char(line.as_slice(), '=') {
                Some((key, _)) => {
                    let a = trim_ws(key.as_slice());
                    let b = trim_set(a.as_slice(), quotes.as_slice());
                    let key = trim_ws(b.as_slice());
                    if key.len() > 0 {
                        let ghost before = strs(out@);
                        out.push(string_of(key.as_slice()));
                        assert(strs(out@) =~= before.push(key@));
                    }
                },
                None => {},
            }
        }
        k += 1;
    }
    assert(all.take(k as int) == all);
    out
}

// ---- Makefiles ------------------------------------------------------------------------

pub open spec fn any_char_of(s: Seq<char>, set: Seq<char>) -> bool {
    exists|i: int| 0 <= i < s.len() && #[trigger] set.contains(s[i])
}

/// A Makefile target: a name at the start of a line followed by a colon, not
/// a `name := value` variable, with no `%`, `$`, space or `=` in it, starting
/// with a letter. Lines starting with space, tab, `#` or `.` never are.
pub open spec fn make_target(line: Seq<char>) -> Option<Seq<char>> {
    if line.len() > 0 && seq![' ', '\t', '#', '.'].contains(line[0]) {
        None
    } else {
        match split_once(line, ':') {
            Some((raw, rest)) => {
                let name = trim(raw);
                if starts_with(rest, "="@) {
                    None
                } else if name.len() == 0 || any_char_of(name, seq!['%', '$', ' ', '=']) {
                    None
                } else if !is_ascii_alpha(name[0]) {
                    None
                } else {
                    Some(name)
                }
            },
            None => None,
        }
    }
}

/// Appends `x` unless it is already there.
pub open spec fn push_new(s: Seq<Seq<char>>, x: Seq<char>) -> Seq<Seq<char>> {
    if s.contains(x) {
        s
    } else {
        s.push(x)
    }
}

pub open spec fn make_scan(ls: Seq<Seq<char>>) -> Seq<Seq<char>>
    decreases ls.len(),
{
    if ls.len() == 0 {
        Seq::empty()
    } else {
        let out = make_scan(ls.drop_last());
        match make_target(ls.last()) {
            Some(t) => push_new(out, t),
            None => out,
        }
    }
}

fn listed(out: &Vec<String>, x: &[char]) -> (b: bool)
    ensures
        b == strs(out@).contains(x@),
{
    let mut i: usize = 0;
    while i < out.len()
        invariant
            i <= out@.len(),
            forall|j: int| 0 <= j < i ==> strs(out@)[j] != x@,
        decreases out@.len() - i,
    {
        let c = chars_of(out[i].as_str());
        if seq_eq(c.as_slice(), x) {
            assert(strs(out@)[i as int] == x@);
            return true;
        }
        i += 1;
    }
    false
}

fn has_any(s: &[char], set: &[char]) -> (b: bool)
    ensures
        b == any_char_of(s@, set@),
{
    let mut i: usize = 0;
    while i < s.len()
        invariant
            i <= s@.len(),
            forall|j: int| 0 <= j < i ==> !set@.contains(#[trigger] s@[j]),
        decreases s@.len() - i,
    {
        if has_char(set, s[i]) {
            return true;
        }
        i += 1;
    }
    false
}

fn make_target_of(line: &[char]) -> (r: Option<Vec<char>>)
    ensures
        match r {
            Some(t) => make_target(line@) == Some(t@),
            None => make_target(line@) is None,
        },
{
    let lead = vec![' ', '\t', '#', '.'];
    assert(lead@ == seq![' ', '\t', '#', '.']);
    if line.len() > 0 && has_char(lead.as_slice(), line[0]) {
        return None;
    }
    match split_once_char(line, ':') {
        Some((raw, rest)) => {
            let name = trim_ws(raw.as_slice());
            let eq = chars_of("=");
            let bad = vec!['%', '$', ' ', '='];
            assert(bad@ == seq!['%', '$', ' ', '=']);
            if crate::text::has_prefix(rest.as_slice(), eq.as_slice()) {
                None
            } else if name.len() == 0 || has_any(name.as_slice(), bad.as_slice()) {
                None
            } else if !crate::text::ascii_alpha(name[0]) {
                None
            } else {
                Some(name)
            }
        },
        None => None,
    }
}

/// Makefile targets: a name at the start of a line followed by a colon.
/// Pattern rules, `.PHONY` and the like start with a dot or contain a `%`, and
/// none of them are things a person runs by name.
pub fn make_targets(text: &str) -> (out: Vec<String>)
    ensures
        strs(out@) == make_scan(lines(text@)),
{
    let v = chars_of(text);
    let ls = split_lines(v.as_slice());
    let ghost all = lines(text@);
    let mut out: Vec<String> = Vec::new();
    let mut k: usize = 0;
    while k < ls.len()
        invariant
            k <= ls@.len(),
            views(ls@) == all,
            all == lines(text@),
            strs(out@) == make_scan(all.take(k as int)),
        decreases ls@.len() - k,
    {
        assert(all.take(k + 1).drop_last() == all.take(k as int));
        assert(all.take(k + 1).last() == ls@[k as int]@);
        match make_target_of(ls[k].as_slice()) {
            Some(t) => {
                if !listed(&out, t.as_slice()) {
                    let ghost before = strs(out@);
                    out.push(string_of(t.as_slice()));
                    assert(strs(out@) =~= before.push(t@));
                }
            },
            None => {},
        }
        k += 1;
    }
    assert(all.take(k as int) == all);
    out
}

// ---- Rakefiles -------------------------------------------------------------------------

pub open spec fn rake_name_char(c: char) -> bool {
    is_ascii_alnum(c) || c == '_' || c == ':'
}

/// A `task <name>` declaration: the name after leading colons and quotes,
/// for as long as it is letters, digits, `_` and `:`.
pub open spec fn rake_task(raw: Seq<char>) -> Option<Seq<char>> {
    match strip_prefix(trim(raw), "task "@) {
        Some(rest) => {
            let r = trim_start_by(rest, in_set(seq![':', '"', '\'']));
            let name = r.take(lead_count(r, |c: char| rake_name_char(c)) as int);
            if name.len() > 0 {
                Some(name)
            } else {
                None
            }
        },
        None => None,
    }
}

pub open spec fn rake_scan(ls: Seq<Seq<char>>) -> Seq<Seq<char>>
    decreases ls.len(),
{
    if ls.len() == 0 {
        Seq::empty()
    } else {
        let out = rake_scan(ls.drop_last());
        match rake_task(ls.last()) {
            Some(t) => push_new(out, t),
            None => out,
        }
    }
}

fn rake_task_of(line: &[char]) -> (r: Option<Vec<char>>)
    ensures
        match r {
            Some(t) => rake_task(line@) == Some(t@),
            None => rake_task(line@) is None,
        },
{
    let t = trim_ws(line);
    match strip_prefix_of(t.as_slice(), "task ") {
        Some(rest) => {
            let lead = vec![':', '"', '\''];
            assert(lead@ == seq![':', '"', '\'']);
            let r = trim_start_set(rest.as_slice(), lead.as_slice());
            let mut i: usize = 0;
            while i < r.len() && (crate::text::ascii_alnum(r[i]) || r[i] == '_' || r[i] == ':')
                invariant
                    i <= r@.len(),
                    forall|j: int| 0 <= j < i ==> (|c: char| rake_name_char(c))(#[trigger] r@[j]),
                decreases r@.len() - i,
            {
                i += 1;
            }
            proof {
                lemma_lead_count(r@, |c: char| rake_name_char(c), i as int);
            }
            let name = slice(r.as_slice(), 0, i);
            if name.len() > 0 {
                Some(name)
            } else {
                None
            }
        },
        None => None,
    }
}

/// Rake tasks, read rather than run: opening a dropdown is not a reason to
/// execute a project's Rakefile, so the declarations are parsed statically.
pub fn rake_tasks(text: &str) -> (out: Vec<String>)
    ensures
        strs(out@) == rake_scan(lines(text@)),
{
    let v = chars_of(text);
    let ls = split_lines(v.as_slice());
    let ghost all = lines(text@);
    let mut out: Vec<String> = Vec::new();
    let mut k: usize = 0;
    while k < ls.len()
        invariant
            k <= ls@.len(),
            views(ls@) == all,
            all == lines(text@),
            strs(out@) == rake_scan(all.take(k as int)),
        decreases ls@.len() - k,
    {
        assert(all.take(k + 1).drop_last() == all.take(k as int));
        assert(all.take(k + 1).last() == ls@[k as int]@);
        match rake_task_of(ls[k].as_slice()) {
            Some(t) => {
                if !listed(&out, t.as_slice()) {
                    let ghost before = strs(out@);
                    out.push(string_of(t.as_slice()));
                    assert(strs(out@) =~= before.push(t@));
                }
            },
            None => {},
        }
        k += 1;
    }
    assert(all.take(k as int) == all);
    out
}

// ---- the suggestion table ------------------------------------------------------------

pub open spec fn opt_text(o: Option<String>) -> Option<Seq<char>> {
    match o {
        Some(s) => Some(s@),
        None => None,
    }
}

pub open spec fn rails_commands() -> Seq<Seq<char>> {
    seq![
        "bin/rails db:migrate"@,
        "bin/rails db:seed"@,
        "bin/rails console"@,
        "bin/rails db:rollback STEP=1"@,
    ]
}

/// What a Gemfile offers: the Rails commands when there is a `bin/rails`,
/// RSpec when the Gemfile mentions it, and otherwise the Rakefile's tasks.
pub open spec fn gem_commands(gemfile: Seq<char>, bin_rails: bool, rakefile: Option<Seq<char>>) -> Seq<Seq<char>> {
    let rails = if bin_rails {
        rails_commands()
    } else {
        Seq::empty()
    };
    let rspec = if contains_seq(gemfile, "rspec"@) {
        seq!["bundle exec rspec"@]
    } else {
        Seq::empty()
    };
    let rake = if !bin_rails && rakefile is Some {
        prefixed_all("bundle exec rake"@, rake_scan(lines(rakefile->0)))
    } else {
        Seq::empty()
    };
    rails + rspec + rake
}

pub open spec fn pyproject_commands(text: Seq<char>) -> Seq<Seq<char>> {
    let a = toml_keys(text, "project.scripts"@);
    if a.len() == 0 {
        toml_keys(text, "tool.poetry.scripts"@)
    } else {
        a
    }
}

/// What the directory offers, in the order of the handoff table: the first
/// manifest that yields anything wins, so a Rails app suggests Rails commands
/// rather than whatever its package.json happens to hold.
pub open spec fn found_spec(p: ProjectFiles) -> (Seq<char>, Seq<Seq<char>>) {
    let npm = match p.package_json {
        Some(t) => prefixed_all(node_prefix_spec(p.pnpm_lock, p.yarn_lock), json_object_keys_of(t@, "scripts"@)),
        None => Seq::empty(),
    };
    let gem = match p.gemfile {
        Some(g) => gem_commands(g@, p.bin_rails, opt_text(p.rakefile)),
        None => Seq::empty(),
    };
    let py = match p.pyproject {
        Some(t) => pyproject_commands(t@),
        None => Seq::empty(),
    };
    let make = match p.makefile {
        Some(t) => prefixed_all("make"@, make_scan(lines(t@))),
        None => Seq::empty(),
    };
    let composer = match p.composer_json {
        Some(t) => prefixed_all("composer run"@, json_object_keys_of(t@, "scripts"@)),
        None => Seq::empty(),
    };
    if npm.len() > 0 {
        ("package.json"@, npm)
    } else if gem.len() > 0 {
        ("Gemfile"@, gem)
    } else if p.manage_py {
        ("manage.py"@, seq!["python manage.py migrate"@, "python manage.py shell"@, "python manage.py createsuperuser"@])
    } else if p.alembic_ini {
        ("alembic.ini"@, seq!["alembic upgrade head"@, "alembic downgrade -1"@])
    } else if py.len() > 0 {
        ("pyproject.toml"@, py)
    } else if make.len() > 0 {
        ("Makefile"@, make)
    } else if p.cargo_toml {
        ("Cargo.toml"@, seq!["cargo test"@, "cargo check"@])
    } else if p.go_mod {
        ("go.mod"@, seq!["go test ./..."@])
    } else if composer.len() > 0 {
        ("composer.json"@, composer)
    } else {
        (Seq::empty(), Seq::empty())
    }
}

fn owned(s: &str) -> (r: String)
    ensures
        r@ == s@,
{
    string_of(chars_of(s).as_slice())
}

fn suggestions(source: &str, commands: Vec<String>) -> (s: Suggestions)
    ensures
        s.source@ == source@,
        s.commands == commands,
{
    Suggestions { source: owned(source), commands }
}

fn append_strings(a: &mut Vec<String>, b: Vec<String>)
    ensures
        strs(final(a)@) == strs(old(a)@) + strs(b@),
{
    let mut b = b;
    let ghost old_a = strs(a@);
    let ghost bb = strs(b@);
    a.append(&mut b);
    assert(strs(a@) =~= old_a + bb);
}

fn gem_suggestions(gemfile: &str, bin_rails: bool, rakefile: &Option<String>) -> (cmds: Vec<String>)
    ensures
        strs(cmds@) == gem_commands(gemfile@, bin_rails, opt_text(*rakefile)),
{
    let mut cmds: Vec<String> = Vec::new();
    if bin_rails {
        cmds.push(owned("bin/rails db:migrate"));
        cmds.push(owned("bin/rails db:seed"));
        cmds.push(owned("bin/rails console"));
        cmds.push(owned("bin/rails db:rollback STEP=1"));
    }
    let ghost rails = strs(cmds@);
    assert(rails =~= (if bin_rails { rails_commands() } else { Seq::empty() }));
    let g = chars_of(gemfile);
    if contains_str(g.as_slice(), "rspec") {
        cmds.push(owned("bundle exec rspec"));
    }
    let ghost with_rspec = strs(cmds@);
    assert(with_rspec =~= rails + (if contains_seq(gemfile@, "rspec"@) {
        seq!["bundle exec rspec"@]
    } else {
        Seq::empty()
    }));
    if !bin_rails {
        match rakefile {
            Some(r) => {
                let tasks = rake_tasks(r.as_str());
                let more = prefix_each("bundle exec rake", &tasks);
                append_strings(&mut cmds, more);
            },
            None => {},
        }
    }
    assert(strs(cmds@) =~= gem_commands(gemfile@, bin_rails, opt_text(*rakefile)));
    cmds
}

/// What this directory offers, in the order the handoff table lists them.
pub fn found(p: &ProjectFiles) -> (s: Suggestions)
    ensures
        (s.source@, strs(s.commands@)) == found_spec(*p),
{
    let npm: Vec<String> = match &p.package_json {
        Some(t) => {
            let keys = json_object_keys(t.as_str(), "scripts");
            let prefix = node_prefix(p.pnpm_lock, p.yarn_lock);
            prefix_each(prefix.as_str(), &keys)
        },
        None => Vec::new(),
    };
    if npm.len() > 0 {
        return suggestions("package.json", npm);
    }
    let gem: Vec<String> = match &p.gemfile {
        Some(g) => gem_suggestions(g.as_str(), p.bin_rails, &p.rakefile),
        None => Vec::new(),
    };
    if gem.len() > 0 {
        return suggestions("Gemfile", gem);
    }
    if p.manage_py {
        let mut c: Vec<String> = Vec::new();
        c.push(owned("python manage.py migrate"));
        c.push(owned("python manage.py shell"));
        c.push(owned("python manage.py createsuperuser"));
        let s = suggestions("manage.py", c);
        assert(strs(s.commands@) =~= seq!["python manage.py migrate"@, "python manage.py shell"@, "python manage.py createsuperuser"@]);
        return s;
    }
    if p.alembic_ini {
        let mut c: Vec<String> = Vec::new();
        c.push(owned("alembic upgrade head"));
        c.push(owned("alembic downgrade -1"));
        let s = suggestions("alembic.ini", c);
        assert(strs(s.commands@) =~= seq!["alembic upgrade head"@, "alembic downgrade -1"@]);
        return s;
    }
    let py: Vec<String> = match &p.pyproject {
        Some(t) => {
            let a = toml_table_keys(t.as_str(), "project.scripts");
            if a.len() == 0 {
                toml_table_keys(t.as_str(), "tool.poetry.scripts")
            } else {
                a
            }
        },
        None => Vec::new(),
    };
    if py.len() > 0 {
        return suggestions("pyproject.toml", py);
    }
    let make: Vec<String> = match &p.makefile {
        Some(t) => {
            let targets = make_targets(t.as_str());
            prefix_each("make", &targets)
        },
        None => Vec::new(),
    };
    if make.len() > 0 {
        return suggestions("Makefile", make);
    }
    if p.cargo_toml {
        let mut c: Vec<String> = Vec::new();
        c.push(owned("cargo test"));
        c.push(owned("cargo check"));
        let s = suggestions("Cargo.toml", c);
        assert(strs(s.commands@) =~= seq!["cargo test"@, "cargo check"@]);
        return s;
    }
    if p.go_mod {
        let mut c: Vec<String> = Vec::new();
        c.push(owned("go test ./..."));
        let s = suggestions("go.mod", c);
        assert(strs(s.commands@) =~= seq!["go test ./..."@]);
        return s;
    }
    let composer: Vec<String> = match &p.composer_json {
        Some(t) => {
            let keys = json_object_keys(t.as_str(), "scripts");
            prefix_each("composer run", &keys)
        },
        None => Vec::new(),
    };
    if composer.len() > 0 {
        return suggestions("composer.json", composer);
    }
    let s = Suggestions::none();
    assert(s.source@ =~= Seq::<char>::empty());
    assert(strs(s.commands@) =~= Seq::<Seq<char>>::empty());
    s
}

/// A found command worth offering: not the start command, which is already
/// the play button on the card, and not one the user already kept.
pub open spec fn offered(start: Seq<char>, kept: Seq<Seq<char>>, c: Seq<char>) -> bool {
    c != start && !kept.contains(c)
}

pub open spec fn suggest_spec(p: ProjectFiles, start_command: Seq<char>, kept: Seq<Seq<char>>) -> (Seq<char>, Seq<Seq<char>>) {
    let f = found_spec(p);
    let start = trim(start_command);
    let left = f.1.filter(|c: Seq<char>| offered(start, kept, c));
    let cut = if left.len() <= MAX {
        left
    } else {
        left.take(MAX as int)
    };
    if cut.len() == 0 {
        (Seq::empty(), Seq::empty())
    } else {
        (f.0, cut)
    }
}

/// What to offer for a server, given what it already starts with and what the
/// user has already kept: at most `MAX` commands, none of them the start
/// command or a kept one, and a source only when there is something to offer.
pub fn suggest(p: &ProjectFiles, start_command: &str, kept: &[String]) -> (s: Suggestions)
    ensures
        (s.source@, strs(s.commands@)) == suggest_spec(*p, start_command@, strs(kept@)),
        s.commands@.len() <= MAX,
        s.commands@.len() == 0 ==> s.source@.len() == 0,
        forall|i: int|
            0 <= i < s.commands@.len() ==> offered(trim(start_command@), strs(kept@), #[trigger] s.commands@[i]@),
{
    let f = found(p);
    let ghost fs = found_spec(*p);
    let sv = chars_of(start_command);
    let start = trim_ws(sv.as_slice());
    let ghost startv = trim(start_command@);
    let ghost kv = strs(kept@);
    let ghost pred = |c: Seq<char>| offered(startv, kv, c);
    let mut left: Vec<String> = Vec::new();
    let mut i: usize = 0;
    let kept_vec = kept_to_vec(kept);
    while i < f.commands.len()
        invariant
            i <= f.commands@.len(),
            strs(f.commands@) == fs.1,
            start@ == startv,
            strs(kept_vec@) == kv,
            pred == (|c: Seq<char>| offered(startv, kv, c)),
            strs(left@) == fs.1.take(i as int).filter(pred),
        decreases f.commands@.len() - i,
    {
        let c = chars_of(f.commands[i].as_str());
        assert(fs.1[i as int] == c@);
        assert(fs.1.take(i + 1).drop_last() == fs.1.take(i as int));
        assert(fs.1.take(i + 1).last() == c@);
        reveal(Seq::filter);
        if !seq_eq(c.as_slice(), start.as_slice()) && !listed(&kept_vec, c.as_slice()) {
            let ghost before = strs(left@);
            left.push(f.commands[i].clone());
            assert(strs(left@) =~= before.push(c@));
        }
        i += 1;
    }
    assert(fs.1.take(i as int) == fs.1);
    let ghost lv = strs(left@);
    if left.len() > MAX {
        left.truncate(MAX);
        assert(strs(left@) =~= lv.take(MAX as int));
    }
    assert forall|k: int| 0 <= k < left@.len() implies offered(startv, kv, #[trigger] left@[k]@) by {
        assert(strs(left@)[k] == left@[k]@);
        assert(lv[k] == left@[k]@);
        fs.1.lemma_filter_pred(pred, k);
    }
    if left.len() == 0 {
        let s = Suggestions::none();
        assert(s.source@ =~= Seq::<char>::empty());
        assert(strs(s.commands@) =~= Seq::<Seq<char>>::empty());
        return s;
    }
    Suggestions { source: f.source, commands: left }
}

fn kept_to_vec(kept: &[String]) -> (v: Vec<String>)
    ensures
        strs(v@) == strs(kept@),
{
    let mut v: Vec<String> = Vec::new();
    let mut i: usize = 0;
    while i < kept.len()
        invariant
            i <= kept@.len(),
            strs(v@) == strs(kept@).take(i as int),
        decreases kept@.len() - i,
    {
        let ghost before = strs(v@);
        v.push(kept[i].clone());
        assert(strs(v@) =~= before.push(kept@[i as int]@));
        assert(strs(kept@).take(i + 1) =~= strs(kept@).take(i as int).push(kept@[i as int]@));
        i += 1;
    }
    assert(strs(kept@).take(i as int) =~= strs(kept@));
    v
}

} // verus!
