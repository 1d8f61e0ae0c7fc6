use vstd::prelude::*;

use crate::config::{Category, Config};
use crate::text::{
    chars_of, contains, contains_exec, find_char, find_char_exec, join, join_exec, lower_of,
    lowercase, push_all, replace, replace_exec, same_chars, slice_vec, starts_with,
    starts_with_exec, string_of, trim, trim_chars, views, words, words_exec, lemma_subrange_drop_last,
    lemma_views_push, lemma_trim_trimmed, trimmed,
};

verus! {

/// One key binding read from a configuration file.
#[derive(Debug, Clone)]
pub struct Keybinding {
    pub key: String,
    pub action: String,
    pub description: String,
    pub category: String,
    pub raw_command: String,
}

/// The text of each field of a key binding.
pub ghost struct KeybindingView {
    pub key: Seq<char>,
    pub action: Seq<char>,
    pub description: Seq<char>,
    pub category: Seq<char>,
    pub raw_command: Seq<char>,
}

impl View for Keybinding {
    type V = KeybindingView;

    open spec fn view(&self) -> KeybindingView {
        KeybindingView {
            key: self.key@,
            action: self.action@,
            description: self.description@,
            category: self.category@,
            raw_command: self.raw_command@,
        }
    }
}

pub open spec fn binding_views(v: Seq<Keybinding>) -> Seq<KeybindingView> {
    v.map_values(|k: Keybinding| k@)
}

/// Where the field splitter stands after reading some characters.
pub ghost struct SplitState {
    pub parts: Seq<Seq<char>>,
    pub cur: Seq<char>,
    pub in_quotes: bool,
    pub depth: int,
}

/// The splitter's state after reading `s`: a comma delimits a field only outside
/// double quotes and outside parentheses.
pub open spec fn split_scan(s: Seq<char>) -> SplitState
    decreases s.len(),
{
    if s.len() == 0 {
        SplitState { parts: Seq::empty(), cur: Seq::empty(), in_quotes: false, depth: 0 }
    } else {
        let st = split_scan(s.drop_last());
        let c = s.last();
        if c == '"' {
            SplitState {
                parts: st.parts,
                cur: st.cur.push(c),
                in_quotes: !st.in_quotes,
                depth: st.depth,
            }
        } else if c == '(' {
            SplitState {
                parts: st.parts,
                cur: st.cur.push(c),
                in_quotes: st.in_quotes,
                depth: st.depth + 1,
            }
        } else if c == ')' {
            SplitState {
                parts: st.parts,
                cur: st.cur.push(c),
                in_quotes: st.in_quotes,
                depth: st.depth - 1,
            }
        } else if c == ',' && !st.in_quotes && st.depth == 0 {
            SplitState {
                parts: st.parts.push(trim(st.cur)),
                cur: Seq::empty(),
                in_quotes: st.in_quotes,
                depth: st.depth,
            }
        } else {
            SplitState {
                parts: st.parts,
                cur: st.cur.push(c),
                in_quotes: st.in_quotes,
                depth: st.depth,
            }
        }
    }
}

/// The trimmed comma-separated fields of `s`.
pub open spec fn split_fields(s: Seq<char>) -> Seq<Seq<char>> {
    let st = split_scan(s);
    st.parts.push(trim(st.cur))
}

/// The part of a line before its first `#`, trimmed (the whole line if it has none).
pub open spec fn code_part(line: Seq<char>) -> Seq<char> {
    match find_char(line, '#') {
        Some(p) => trim(line.take(p)),
        None => line,
    }
}

/// The trimmed text after the first `#` of a line, if it has one.
pub open spec fn comment_part(line: Seq<char>) -> Option<Seq<char>> {
    match find_char(line, '#') {
        Some(p) => Some(trim(line.skip(p + 1))),
        None => None,
    }
}

/// What follows the directive keyword and the optional `=`.
pub open spec fn directive_body(code: Seq<char>) -> Seq<char> {
    let after = if starts_with(code, "binde"@) || starts_with(code, "bindm"@) {
        code.skip(5)
    } else {
        code.skip(4)
    };
    let t = trim(after);
    if t.len() > 0 && t[0] == '=' {
        trim(t.drop_first())
    } else {
        t
    }
}

pub open spec fn key_text(mods: Seq<char>, key: Seq<char>) -> Seq<char> {
    if mods.len() == 0 {
        key
    } else {
        mods + " "@ + key
    }
}

/// Placeholders replaced, then the words joined by ` + `.
pub open spec fn format_key(mk: Seq<char>) -> Seq<char> {
    let w = words(replace(replace(mk, "$mainMod"@, "Super"@), "$shiftMod"@, "Shift"@));
    if w.len() == 0 {
        "Unknown"@
    } else {
        join(w, " + "@)
    }
}

/// The description given to a binding whose line has no comment.
pub open spec fn describe(action: Seq<char>, params: Seq<char>) -> Seq<char> {
    if action == "exec"@ {
        if contains(params, "terminal"@) {
            "Open terminal"@
        } else if contains(params, "browser"@) {
            "Open browser"@
        } else if contains(params, "filemanager"@) {
            "Open file manager"@
        } else {
            "Execute: "@ + params
        }
    } else if action == "killactive"@ {
        "Kill active window"@
    } else if action == "fullscreen"@ {
        if params == "0"@ {
            "Toggle fullscreen"@
        } else {
            "Maximize window"@
        }
    } else if action == "togglefloating"@ {
        "Toggle floating mode"@
    } else if action == "workspace"@ {
        "Switch to workspace "@ + params
    } else if action == "movetoworkspace"@ {
        "Move window to workspace "@ + params
    } else {
        trim(action + " "@ + params)
    }
}

/// Some keyword of `kws`, lower-cased, occurs in `text`.
pub open spec fn keyword_hit(kws: Seq<String>, text: Seq<char>) -> bool {
    exists|j: int| 0 <= j < kws.len() && contains(text, lower_of(#[trigger] kws[j]@))
}

/// The name of the first category from index `i` on that one of whose keywords
/// occurs in `text`; `Other` if there is none.
pub open spec fn first_category(cats: Seq<(String, Category)>, text: Seq<char>, i: int) -> Seq<
    char,
>
    decreases cats.len() - i,
{
    if i < 0 || i >= cats.len() {
        "Other"@
    } else if keyword_hit(cats[i].1.keywords@, text) {
        cats[i].1.name@
    } else {
        first_category(cats, text, i + 1)
    }
}

pub open spec fn search_text(action: Seq<char>, params: Seq<char>, description: Seq<char>) -> Seq<
    char,
> {
    lower_of(action + " "@ + params + " "@ + description)
}

pub open spec fn category_for(
    cats: Seq<(String, Category)>,
    action: Seq<char>,
    params: Seq<char>,
    description: Seq<char>,
) -> Seq<char> {
    first_category(cats, search_text(action, params, description), 0)
}

/// The record that a directive line yields, if it is one.
pub open spec fn bind_record(line: Seq<char>, cats: Seq<(String, Category)>) -> Option<
    KeybindingView,
> {
    let code = code_part(line);
    let body = directive_body(code);
    let f = split_fields(body);
    if !starts_with(code, "bind"@) || f.len() < 3 || f[2].len() == 0 {
        None
    } else {
        let action = f[2];
        let params = if f.len() > 3 {
            trim(join(f.skip(3), ","@))
        } else {
            Seq::empty()
        };
        let description = match comment_part(line) {
            Some(c) => c,
            None => describe(action, params),
        };
        Some(
            KeybindingView {
                key: format_key(key_text(f[0], f[1])),
                action: if params.len() == 0 {
                    action
                } else {
                    action + ", "@ + params
                },
                description,
                category: category_for(cats, action, params, description),
                raw_command: "bind = "@ + body,
            },
        )
    }
}

/// The lines of `s` read so far, and the line being read.
pub open spec fn lines_scan(s: Seq<char>) -> (Seq<Seq<char>>, Seq<char>)
    decreases s.len(),
{
    if s.len() == 0 {
        (Seq::empty(), Seq::empty())
    } else {
        let (done, cur) = lines_scan(s.drop_last());
        if s.last() == '\n' {
            (done.push(cur), Seq::empty())
        } else {
            (done, cur.push(s.last()))
        }
    }
}

/// The pieces of `s` between line breaks.
pub open spec fn lines(s: Seq<char>) -> Seq<Seq<char>> {
    let (done, cur) = lines_scan(s);
    done.push(cur)
}

/// A line is skipped when blank, or a comment that does not mention `bind`.
pub open spec fn skipped_line(t: Seq<char>) -> bool {
    t.len() == 0 || (starts_with(t, "#"@) && !contains(t, "bind"@))
}

pub open spec fn line_records(line: Seq<char>, cats: Seq<(String, Category)>) -> Seq<
    KeybindingView,
> {
    let t = trim(line);
    if skipped_line(t) {
        Seq::empty()
    } else {
        match bind_record(t, cats) {
            Some(k) => seq![k],
            None => Seq::empty(),
        }
    }
}

pub open spec fn records_of(ls: Seq<Seq<char>>, cats: Seq<(String, Category)>) -> Seq<
    KeybindingView,
>
    decreases ls.len(),
{
    if ls.len() == 0 {
        Seq::empty()
    } else {
        records_of(ls.drop_last(), cats) + line_records(ls.last(), cats)
    }
}

/// The records of the whole text of one configuration file, in order.
pub open spec fn content_records(text: Seq<char>, cats: Seq<(String, Category)>) -> Seq<
    KeybindingView,
> {
    records_of(lines(text), cats)
}


pub open spec fn opt_view(o: Option<Keybinding>) -> Option<KeybindingView> {
    match o {
        Some(k) => Some(k@),
        None => None,
    }
}

pub open spec fn opt_records(o: Option<Keybinding>) -> Seq<KeybindingView> {
    match o {
        Some(k) => seq![k@],
        None => Seq::empty(),
    }
}

/// The records of several files' texts, one file after another.
pub open spec fn all_records(texts: Seq<String>, cats: Seq<(String, Category)>) -> Seq<
    KeybindingView,
>
    decreases texts.len(),
{
    if texts.len() == 0 {
        Seq::empty()
    } else {
        all_records(texts.drop_last(), cats) + content_records(texts.last()@, cats)
    }
}

proof fn lemma_binding_views_push(v: Seq<Keybinding>, k: Keybinding)
    ensures
        binding_views(v.push(k)) == binding_views(v).push(k@),
{
    assert(binding_views(v.push(k)) =~= binding_views(v).push(k@));
}

/// Reads key bindings from configuration text, with the categories of a configuration.
pub struct HyprlandParser<'a> {
    pub config: &'a Config,
}

impl<'a> HyprlandParser<'a> {
    pub open spec fn cats(&self) -> Seq<(String, Category)> {
        self.config.categories@
    }

    pub fn new(config: &'a Config) -> (r: Self)
        ensures
            r.config == config,
    {
        HyprlandParser { config }
    }

    /// Splits at each comma that stands outside double quotes and parentheses,
    /// and trims each field.
    pub fn split_bind_parts(&self, content: &[char]) -> (r: Vec<Vec<char>>)
        ensures
            views(r@) == split_fields(content@),
    {
        let n = content.len();
        let mut parts: Vec<Vec<char>> = Vec::new();
        let mut current: Vec<char> = Vec::new();
        let mut in_quotes = false;
        let mut opens: usize = 0;
        let mut closes: usize = 0;
        let mut i: usize = 0;
        proof {
            assert(content@.subrange(0, 0) =~= Seq::<char>::empty());
            assert(views(parts@) =~= Seq::<Seq<char>>::empty());
        }
        while i < n
            invariant
                n == content@.len(),
                i <= n,
                opens <= i,
                closes <= i,
                split_scan(content@.subrange(0, i as int)) == (SplitState {
                    parts: views(parts@),
                    cur: current@,
                    in_quotes: in_quotes,
                    depth: opens - closes,
                }),
            decreases n - i,
        {
            proof {
                lemma_subrange_drop_last(content@, i + 1);
            }
            let ch = content[i];
            if ch == '"' {
                in_quotes = !in_quotes;
                current.push(ch);
            } else if ch == '(' {
                opens = opens + 1;
                current.push(ch);
            } else if ch == ')' {
                closes = closes + 1;
                current.push(ch);
            } else if ch == ',' && !in_quotes && opens == closes {
                let t = trim_chars(current.as_slice());
                proof {
                    lemma_views_push(parts@, t);
                }
                parts.push(t);
                current = Vec::new();
            } else {
                current.push(ch);
            }
            i = i + 1;
        }
        proof {
            assert(content@.subrange(0, n as int) =~= content@);
        }
        let t = trim_chars(current.as_slice());
        proof {
            lemma_views_push(parts@, t);
        }
        parts.push(t);
        parts
    }

    /// Substitutes the placeholders and joins the words with ` + `, the key last.
    pub fn format_key_combination(&self, modifiers_and_key: &[char]) -> (r: Vec<char>)
        ensures
            r@ == format_key(modifiers_and_key@),
    {
        let main_mod = chars_of("$mainMod");
        let sup = chars_of("Super");
        let shift_mod = chars_of("$shiftMod");
        let shift = chars_of("Shift");
        let a = replace_exec(modifiers_and_key, main_mod.as_slice(), sup.as_slice());
        let b = replace_exec(a.as_slice(), shift_mod.as_slice(), shift.as_slice());
        let w = words_exec(b.as_slice());
        if w.len() == 0 {
            chars_of("Unknown")
        } else {
            let sep = chars_of(" + ");
            let r = join_exec(&w, 0, sep.as_slice());
            proof {
                assert(views(w@).skip(0) =~= views(w@));
            }
            r
        }
    }

    /// The description of a binding whose line carries no comment.
    pub fn generate_description(&self, action: &[char], params: &[char]) -> (r: Vec<char>)
        ensures
            r@ == describe(action@, params@),
    {
        if same_chars(action, chars_of("exec").as_slice()) {
            if contains_exec(params, chars_of("terminal").as_slice()) {
                chars_of("Open terminal")
            } else if contains_exec(params, chars_of("browser").as_slice()) {
                chars_of("Open browser")
            } else if contains_exec(params, chars_of("filemanager").as_slice()) {
                chars_of("Open file manager")
            } else {
                let mut r = chars_of("Execute: ");
                push_all(&mut r, params);
                r
            }
        } else if same_chars(action, chars_of("killactive").as_slice()) {
            chars_of("Kill active window")
        } else if same_chars(action, chars_of("fullscreen").as_slice()) {
            if same_chars(params, chars_of("0").as_slice()) {
                chars_of("Toggle fullscreen")
            } else {
                chars_of("Maximize window")
            }
        } else if same_chars(action, chars_of("togglefloating").as_slice()) {
            chars_of("Toggle floating mode")
        } else if same_chars(action, chars_of("workspace").as_slice()) {
            let mut r = chars_of("Switch to workspace ");
            push_all(&mut r, params);
            r
        } else if same_chars(action, chars_of("movetoworkspace").as_slice()) {
            let mut r = chars_of("Move window to workspace ");
            push_all(&mut r, params);
            r
        } else {
            let mut t: Vec<char> = Vec::new();
            push_all(&mut t, action);
            push_all(&mut t, chars_of(" ").as_slice());
            push_all(&mut t, params);
            trim_chars(t.as_slice())
        }
    }

    /// The name of the first configured category one of whose keywords occurs,
    /// ignoring case, in the action, parameters and description; `Other` if none.
    pub fn determine_category(&self, action: &[char], params: &[char], description: &[char]) -> (r:
        String)
        ensures
            r@ == category_for(self.cats(), action@, params@, description@),
    {
        let space = chars_of(" ");
        let mut t: Vec<char> = Vec::new();
        push_all(&mut t, action);
        push_all(&mut t, space.as_slice());
        push_all(&mut t, params);
        push_all(&mut t, space.as_slice());
        push_all(&mut t, description);
        let joined = string_of(t.as_slice());
        let low = lowercase(joined.as_str());
        let text = chars_of(low.as_str());
        let cats = &self.config.categories;
        let mut lowered: Vec<(String, Vec<String>)> = Vec::new();
        let mut i: usize = 0;
        while i < cats.len()
            invariant
                i <= cats@.len(),
                lowered@.len() == i,
                forall|g: int| 0 <= g < i ==> lowered_entry(#[trigger] lowered@[g], cats@[g]),
            decreases cats@.len() - i,
        {
            let kws = &cats[i].1.keywords;
            let mut low_kws: Vec<String> = Vec::new();
            let mut j: usize = 0;
            while j < kws.len()
                invariant
                    j <= kws@.len(),
                    low_kws@.len() == j,
                    forall|k: int| 0 <= k < j ==> #[trigger] low_kws@[k]@ == lower_of(kws@[k]@),
                decreases kws@.len() - j,
            {
                low_kws.push(lowercase(kws[j].as_str()));
                j = j + 1;
            }
            lowered.push((cats[i].1.name.clone(), low_kws));
            i = i + 1;
        }
        proof {
            lemma_lowered_same(cats@, lowered@, text@, 0);
        }
        match_category(&lowered, text.as_slice())
    }
}

/// `low` holds the name of `cat` and each of its keywords lower-cased.
pub open spec fn lowered_entry(low: (String, Vec<String>), cat: (String, Category)) -> bool {
    &&& low.0@ == cat.1.name@
    &&& low.1@.len() == cat.1.keywords@.len()
    &&& forall|k: int| 0 <= k < low.1@.len() ==> #[trigger] low.1@[k]@ == lower_of(cat.1.keywords@[k]@)
}

/// Some keyword of `kws` occurs in `text` as it stands.
pub open spec fn plain_hit(kws: Seq<String>, text: Seq<char>) -> bool {
    exists|j: int| 0 <= j < kws.len() && contains(text, #[trigger] kws[j]@)
}

/// The name of the first (name, keywords) entry from index `i` on one of whose
/// keywords occurs in `text`; `Other` if there is none.
pub open spec fn first_named(cats: Seq<(String, Vec<String>)>, text: Seq<char>, i: int) -> Seq<char>
    decreases cats.len() - i,
{
    if i < 0 || i >= cats.len() {
        "Other"@
    } else if plain_hit(cats[i].1@, text) {
        cats[i].0@
    } else {
        first_named(cats, text, i + 1)
    }
}

proof fn lemma_lowered_same(
    cats: Seq<(String, Category)>,
    lowered: Seq<(String, Vec<String>)>,
    text: Seq<char>,
    i: int,
)
    requires
        0 <= i,
        lowered.len() == cats.len(),
        forall|g: int| 0 <= g < cats.len() ==> lowered_entry(#[trigger] lowered[g], cats[g]),
    ensures
        first_named(lowered, text, i) == first_category(cats, text, i),
    decreases cats.len() - i,
{
    if i < cats.len() {
        assert(lowered_entry(lowered[i], cats[i]));
        let kws = cats[i].1.keywords@;
        let low = lowered[i].1@;
        if plain_hit(low, text) {
            let j = choose|j: int| 0 <= j < low.len() && contains(text, #[trigger] low[j]@);
            assert(low[j]@ == lower_of(kws[j]@));
            assert(keyword_hit(kws, text));
        }
        if keyword_hit(kws, text) {
            let j = choose|j: int| 0 <= j < kws.len() && contains(text, lower_of(#[trigger] kws[j]@));
            assert(low[j]@ == lower_of(kws[j]@));
            assert(plain_hit(low, text));
        }
        lemma_lowered_same(cats, lowered, text, i + 1);
    }
}

/// The name of the first entry one of whose keywords occurs in `text`; `Other`
/// if none does. Keywords and text are compared exactly as given.
pub fn match_category(cats: &Vec<(String, Vec<String>)>, text: &[char]) -> (r: String)
    ensures
        r@ == first_named(cats@, text@, 0),
{
    let mut i: usize = 0;
    while i < cats.len()
        invariant
            i <= cats@.len(),
            first_named(cats@, text@, i as int) == first_named(cats@, text@, 0),
        decreases cats@.len() - i,
    {
        let kws = &cats[i].1;
        let mut j: usize = 0;
        while j < kws.len()
            invariant
                first_named(cats@, text@, i as int) == first_named(cats@, text@, 0),
                i < cats@.len(),
                kws == &cats@[i as int].1,
                j <= kws@.len(),
                forall|jj: int| 0 <= jj < j ==> !contains(text@, #[trigger] kws@[jj]@),
            decreases kws@.len() - j,
        {
            let kc = chars_of(kws[j].as_str());
            if contains_exec(text, kc.as_slice()) {
                proof {
                    assert(plain_hit(kws@, text@));
                }
                return cats[i].0.clone();
            }
            j = j + 1;
        }
        proof {
            assert(!plain_hit(kws@, text@));
        }
        i = i + 1;
    }
    String::from_str("Other")
}

impl<'a> HyprlandParser<'a> {
    /// The record of a directive line, or `None` when the line is not one.
    fn line_binding(&self, line: &[char]) -> (r: Option<Keybinding>)
        ensures
            opt_view(r) == bind_record(line@, self.cats()),
    {
        let n = line.len();
        let pos = find_char_exec(line, '#');
        let code: Vec<char>;
        let comment: Option<Vec<char>>;
        match pos {
            Some(p) => {
                code = trim_chars(slice_vec(line, 0, p).as_slice());
                comment = Some(trim_chars(slice_vec(line, p + 1, n).as_slice()));
            },
            None => {
                code = slice_vec(line, 0, n);
                comment = None;
                proof {
                    assert(line@.subrange(0, n as int) =~= line@);
                }
            },
        }
        proof {
            reveal_strlit("bind");
            reveal_strlit("binde");
            reveal_strlit("bindm");
        }
        if !starts_with_exec(code.as_slice(), chars_of("bind").as_slice()) {
            return None;
        }
        let cn = code.len();
        let after = if starts_with_exec(code.as_slice(), chars_of("binde").as_slice())
            || starts_with_exec(code.as_slice(), chars_of("bindm").as_slice()) {
            slice_vec(code.as_slice(), 5, cn)
        } else {
            slice_vec(code.as_slice(), 4, cn)
        };
        let t = trim_chars(after.as_slice());
        let body = if t.len() > 0 && t[0] == '=' {
            proof {
                assert(t@.drop_first() =~= t@.subrange(1, t@.len() as int));
            }
            trim_chars(slice_vec(t.as_slice(), 1, t.len()).as_slice())
        } else {
            t
        };
        let parts = self.split_bind_parts(body.as_slice());
        if parts.len() < 3 || parts[2].len() == 0 {
            return None;
        }
        let ghost f = views(parts@);
        proof {
            assert(f[0] == parts@[0]@ && f[1] == parts@[1]@ && f[2] == parts@[2]@);
        }
        let action = &parts[2];
        let params: Vec<char> = if parts.len() > 3 {
            let joined = join_exec(&parts, 3, chars_of(",").as_slice());
            trim_chars(joined.as_slice())
        } else {
            Vec::new()
        };
        let mut mk: Vec<char> = Vec::new();
        if parts[0].len() > 0 {
            push_all(&mut mk, parts[0].as_slice());
            push_all(&mut mk, chars_of(" ").as_slice());
        }
        push_all(&mut mk, parts[1].as_slice());
        proof {
            if f[0].len() == 0 {
                assert(mk@ =~= f[1]);
            }
        }
        let key = self.format_key_combination(mk.as_slice());
        let description = match comment {
            Some(c) => c,
            None => self.generate_description(action.as_slice(), params.as_slice()),
        };
        let category = self.determine_category(
            action.as_slice(),
            params.as_slice(),
            description.as_slice(),
        );
        let mut full: Vec<char> = Vec::new();
        push_all(&mut full, action.as_slice());
        if params.len() > 0 {
            push_all(&mut full, chars_of(", ").as_slice());
            push_all(&mut full, params.as_slice());
        }
        let mut raw = chars_of("bind = ");
        push_all(&mut raw, body.as_slice());
        Some(
            Keybinding {
                key: string_of(key.as_slice()),
                action: string_of(full.as_slice()),
                description: string_of(description.as_slice()),
                category,
                raw_command: string_of(raw.as_slice()),
            },
        )
    }

    /// The record of a directive line, or `None` when the line is not one.
    pub fn parse_bind_line(&self, line: &str) -> (r: Option<Keybinding>)
        ensures
            opt_view(r) == bind_record(line@, self.cats()),
    {
        let chars = chars_of(line);
        self.line_binding(chars.as_slice())
    }

    /// The record of one physical line: blank lines and comments that do not
    /// mention `bind` are skipped.
    fn parse_line(&self, line: &[char]) -> (r: Option<Keybinding>)
        ensures
            opt_records(r) == line_records(line@, self.cats()),
    {
        let t = trim_chars(line);
        if t.len() == 0 || (starts_with_exec(t.as_slice(), chars_of("#").as_slice())
            && !contains_exec(t.as_slice(), chars_of("bind").as_slice())) {
            None
        } else {
            self.line_binding(t.as_slice())
        }
    }

    /// The records of the whole text of one configuration file, in order.
    pub fn parse_content(&self, content: &str) -> (r: Vec<Keybinding>)
        ensures
            binding_views(r@) == content_records(content@, self.cats()),
    {
        let text = chars_of(content);
        let n = text.len();
        let mut out: Vec<Keybinding> = Vec::new();
        let mut cur: Vec<char> = Vec::new();
        let ghost mut ls: Seq<Seq<char>> = Seq::empty();
        let mut i: usize = 0;
        proof {
            assert(text@.subrange(0, 0) =~= Seq::<char>::empty());
            assert(binding_views(out@) =~= Seq::<KeybindingView>::empty());
        }
        while i < n
            invariant
                n == text@.len(),
                text@ == content@,
                i <= n,
                lines_scan(text@.subrange(0, i as int)) == (ls, cur@),
                binding_views(out@) == records_of(ls, self.cats()),
            decreases n - i,
        {
            proof {
                lemma_subrange_drop_last(text@, i + 1);
            }
            if text[i] == '\n' {
                let rec = self.parse_line(cur.as_slice());
                proof {
                    assert(ls.push(cur@).drop_last() =~= ls);
                }
                match rec {
                    Some(k) => {
                        proof {
                            lemma_binding_views_push(out@, k);
                        }
                        out.push(k);
                    },
                    None => {
                        proof {
                            assert(binding_views(out@) + Seq::<KeybindingView>::empty()
                                =~= binding_views(out@));
                        }
                    },
                }
                proof {
                    ls = ls.push(cur@);
                }
                cur = Vec::new();
            } else {
                cur.push(text[i]);
            }
            i = i + 1;
        }
        proof {
            assert(text@.subrange(0, n as int) =~= text@);
            assert(ls.push(cur@).drop_last() =~= ls);
        }
        let rec = self.parse_line(cur.as_slice());
        match rec {
            Some(k) => {
                proof {
                    lemma_binding_views_push(out@, k);
                }
                out.push(k);
            },
            None => {
                proof {
                    assert(binding_views(out@) + Seq::<KeybindingView>::empty() =~= binding_views(
                        out@,
                    ));
                }
            },
        }
        out
    }

    /// The records of several files' texts, one file after another.
    pub fn parse_contents(&self, contents: &Vec<String>) -> (r: Vec<Keybinding>)
        ensures
            binding_views(r@) == all_records(contents@, self.cats()),
    {
        let mut out: Vec<Keybinding> = Vec::new();
        let mut i: usize = 0;
        proof {
            assert(contents@.subrange(0, 0) =~= Seq::<String>::empty());
            assert(binding_views(out@) =~= Seq::<KeybindingView>::empty());
        }
        while i < contents.len()
            invariant
                i <= contents@.len(),
                binding_views(out@) == all_records(contents@.subrange(0, i as int), self.cats()),
            decreases contents@.len() - i,
        {
            let mut recs = self.parse_content(contents[i].as_str());
            proof {
                assert(contents@.subrange(0, i + 1).drop_last() =~= contents@.subrange(
                    0,
                    i as int,
                ));
                assert(binding_views(out@ + recs@) =~= binding_views(out@) + binding_views(
                    recs@,
                ));
            }
            out.append(&mut recs);
            i = i + 1;
        }
        proof {
            assert(contents@.subrange(0, i as int) =~= contents@);
        }
        out
    }
}

/// A directive line yields exactly one record when its body has at least three
/// fields and a non-empty third one, and none otherwise.
pub proof fn lemma_directive_record_count(line: Seq<char>, cats: Seq<(String, Category)>)
    requires
        !skipped_line(trim(line)),
        starts_with(code_part(trim(line)), "bind"@),
    ensures
        ({
            let f = split_fields(directive_body(code_part(trim(line))));
            line_records(line, cats).len() == if f.len() >= 3 && f[2].len() > 0 {
                1int
            } else {
                0int
            }
        }),
{
}

/// A comma read inside double quotes or parentheses does not end a field: it
/// joins the field being read.
pub proof fn lemma_guarded_comma_kept(s: Seq<char>)
    requires
        split_scan(s).in_quotes || split_scan(s).depth != 0,
    ensures
        split_scan(s.push(',')).parts == split_scan(s).parts,
        split_scan(s.push(',')).cur == split_scan(s).cur.push(','),
{
    assert(s.push(',').drop_last() =~= s);
}

/// When exactly one category has a matching keyword, its name is the category;
/// when none has, the category is `Other`.
pub proof fn lemma_single_category(cats: Seq<(String, Category)>, text: Seq<char>, m: int)
    requires
        0 <= m < cats.len(),
        keyword_hit(cats[m].1.keywords@, text),
        forall|i: int| 0 <= i < cats.len() && i != m ==> !keyword_hit(#[trigger] cats[i].1.keywords@, text),
    ensures
        first_category(cats, text, 0) == cats[m].1.name@,
{
    lemma_first_category_from(cats, text, m, 0);
}

proof fn lemma_first_category_from(cats: Seq<(String, Category)>, text: Seq<char>, m: int, i: int)
    requires
        0 <= i <= m < cats.len(),
        keyword_hit(cats[m].1.keywords@, text),
        forall|j: int| 0 <= j < cats.len() && j != m ==> !keyword_hit(#[trigger] cats[j].1.keywords@, text),
    ensures
        first_category(cats, text, i) == cats[m].1.name@,
    decreases m - i,
{
    if i < m {
        lemma_first_category_from(cats, text, m, i + 1);
    }
}

/// When no category has a matching keyword, the category is `Other`.
pub proof fn lemma_no_category(cats: Seq<(String, Category)>, text: Seq<char>, i: int)
    requires
        0 <= i,
        forall|j: int| 0 <= j < cats.len() ==> !keyword_hit(#[trigger] cats[j].1.keywords@, text),
    ensures
        first_category(cats, text, i) == "Other"@,
    decreases cats.len() - i,
{
    if i < cats.len() {
        lemma_no_category(cats, text, i + 1);
    }
}

/// A comma read outside double quotes and parentheses ends the field being
/// read: the field is kept, trimmed, and a new one begins.
pub proof fn lemma_top_level_comma_splits(s: Seq<char>)
    requires
        !split_scan(s).in_quotes,
        split_scan(s).depth == 0,
    ensures
        split_scan(s.push(',')).parts == split_scan(s).parts.push(trim(split_scan(s).cur)),
        split_scan(s.push(',')).cur == Seq::<char>::empty(),
{
    assert(s.push(',').drop_last() =~= s);
}

proof fn lemma_scan_parts_trimmed(s: Seq<char>)
    ensures
        forall|k: int| 0 <= k < split_scan(s).parts.len() ==> trimmed(#[trigger] split_scan(s).parts[k]),
    decreases s.len(),
{
    if s.len() > 0 {
        lemma_scan_parts_trimmed(s.drop_last());
        lemma_trim_trimmed(split_scan(s.drop_last()).cur);
    }
}

/// Every field that the splitter yields has no whitespace at either end.
pub proof fn lemma_fields_trimmed(s: Seq<char>)
    ensures
        forall|k: int| 0 <= k < split_fields(s).len() ==> trimmed(#[trigger] split_fields(s)[k]),
{
    lemma_scan_parts_trimmed(s);
    lemma_trim_trimmed(split_scan(s).cur);
    let st = split_scan(s);
    assert forall|k: int| 0 <= k < split_fields(s).len() implies trimmed(#[trigger] split_fields(s)[k]) by {
        if k < st.parts.len() {
            assert(split_fields(s)[k] == st.parts[k]);
        }
    }
}

/// Position `i` of `s` holds a comma outside double quotes and parentheses.
pub open spec fn top_level_comma(s: Seq<char>, i: int) -> bool {
    0 <= i < s.len() && s[i] == ',' && !split_scan(s.take(i)).in_quotes
        && split_scan(s.take(i)).depth == 0
}

/// How many commas of `s` stand outside double quotes and parentheses.
pub open spec fn top_level_commas(s: Seq<char>) -> nat
    decreases s.len(),
{
    if s.len() == 0 {
        0
    } else {
        top_level_commas(s.drop_last()) + if top_level_comma(s, s.len() - 1) {
            1nat
        } else {
            0nat
        }
    }
}

proof fn lemma_parts_count(s: Seq<char>)
    ensures
        split_scan(s).parts.len() == top_level_commas(s),
    decreases s.len(),
{
    if s.len() > 0 {
        lemma_parts_count(s.drop_last());
        assert(s.take(s.len() - 1) =~= s.drop_last());
    }
}

/// The fields are cut exactly at the commas that stand outside double quotes
/// and parentheses: there is one field more than there are such commas, so no
/// field holds one, and every comma inside quotes or parentheses stays in its field.
pub proof fn lemma_fields_cut_at_top_level_commas(s: Seq<char>)
    ensures
        split_fields(s).len() == top_level_commas(s) + 1,
{
    lemma_parts_count(s);
}

} // verus!
