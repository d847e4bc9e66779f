//! The bot's module configuration: which modules are switched on, how that
//! is written to and read from the configuration file, and the stored
//! application token.
use vstd::prelude::*;
use crate::module_status::{
    lemma_status_text_plain, lemma_status_text_round_trip, parse_status, status_text, ModuleStatus,
};
use crate::text::{
    all_space, chars_of, has_char, is_space, join, join_strings, led, lemma_all_space_plain,
    lemma_chars_deep_view, lemma_concat_without, lemma_join_first, lemma_split_concat,
    lemma_split_join_led, lemma_split_len, lemma_split_without_sep, lemma_trim_after_space,
    lemma_trim_before_space, lemma_trim_padded, same_chars, split, split_chars, string_of, trim,
    trim_chars,
};

verus! {

/// The status of each module, by module name.
pub struct ModuleSettings {
    names: Vec<Vec<char>>,
    statuses: Vec<ModuleStatus>,
}

impl ModuleSettings {
    /// The names, as character sequences.
    pub closed spec fn name_seq(&self) -> Seq<Seq<char>> {
        self.names.deep_view()
    }

    /// The index under which `name` is kept.
    pub closed spec fn index_of(&self, name: Seq<char>) -> int {
        choose|i: int| 0 <= i < self.name_seq().len() && self.name_seq()[i] == name
    }

    /// Each name is kept once, beside its status.
    pub closed spec fn wf(&self) -> bool {
        &&& self.names@.len() == self.statuses@.len()
        &&& forall|i: int, j: int|
            0 <= i < j < self.name_seq().len() ==> self.name_seq()[i] != self.name_seq()[j]
    }
}

impl View for ModuleSettings {
    type V = Map<Seq<char>, ModuleStatus>;

    closed spec fn view(&self) -> Map<Seq<char>, ModuleStatus> {
        Map::new(
            |name: Seq<char>| self.name_seq().contains(name),
            |name: Seq<char>| self.statuses@[self.index_of(name)],
        )
    }
}

impl ModuleSettings {
    /// Settings for no module.
    pub fn new() -> (s: ModuleSettings)
        ensures
            s.wf(),
            s@ == Map::<Seq<char>, ModuleStatus>::empty(),
    {
        let s = ModuleSettings { names: Vec::new(), statuses: Vec::new() };
        assert(s@ =~= Map::<Seq<char>, ModuleStatus>::empty());
        s
    }

    /// Where `name` is kept, if it is.
    fn find(&self, name: &Vec<char>) -> (r: Option<usize>)
        requires
            self.wf(),
        ensures
            match r {
                Some(i) => i < self.names@.len() && self.name_seq()[i as int] == name@,
                None => !self.name_seq().contains(name@),
            },
    {
        let mut i: usize = 0;
        while i < self.names.len()
            invariant
                self.wf(),
                i <= self.names@.len(),
                forall|k: int| 0 <= k < i ==> self.name_seq()[k] != name@,
            decreases self.names@.len() - i,
        {
            assert(self.name_seq()[i as int] == self.names@[i as int]@);
            if same_chars(&self.names[i], name) {
                return Some(i);
            }
            i = i + 1;
        }
        None
    }

    /// Facts about the map view at a kept index.
    proof fn lemma_at(&self, i: int)
        requires
            self.wf(),
            0 <= i < self.name_seq().len(),
        ensures
            self@.dom().contains(self.name_seq()[i]),
            self.index_of(self.name_seq()[i]) == i,
            self@[self.name_seq()[i]] == self.statuses@[i],
    {
        let name = self.name_seq()[i];
        assert(self.name_seq().contains(name));
        let j = self.index_of(name);
        assert(0 <= j < self.name_seq().len() && self.name_seq()[j] == name);
        if j != i {
            if i < j {
                assert(self.name_seq()[i] != self.name_seq()[j]);
            } else {
                assert(self.name_seq()[j] != self.name_seq()[i]);
            }
        }
    }

    /// The status kept for `name`, if any (`HashMap::get`).
    pub fn get(&self, name: &str) -> (r: Option<ModuleStatus>)
        requires
            self.wf(),
        ensures
            r == (if self@.dom().contains(name@) {
                Some(self@[name@])
            } else {
                None
            }),
    {
        let key = chars_of(name);
        match self.find(&key) {
            Some(i) => {
                proof {
                    self.lemma_at(i as int);
                }
                Some(self.statuses[i])
            },
            None => None,
        }
    }

    /// Keeps `status` for `name`, in place of what was kept for it
    /// (`HashMap::insert`).
    pub fn insert(&mut self, name: &str, status: ModuleStatus)
        requires
            old(self).wf(),
        ensures
            final(self).wf(),
            final(self)@ == old(self)@.insert(name@, status),
    {
        let key = chars_of(name);
        let ghost before = *self;
        match self.find(&key) {
            Some(i) => {
                self.statuses.set(i, status);
                assert(self.name_seq() == before.name_seq());
                assert forall|n: Seq<char>| #[trigger]
                    self@.dom().contains(n) implies self@[n] == before@.insert(name@, status)[n] by {
                    let j = self.index_of(n);
                    assert(0 <= j < self.name_seq().len() && self.name_seq()[j] == n);
                    before.lemma_at(j);
                    self.lemma_at(j);
                    before.lemma_at(i as int);
                }
                proof {
                    before.lemma_at(i as int);
                }
                assert(self@ =~= before@.insert(name@, status));
            },
            None => {
                proof {
                    lemma_chars_deep_view(&key);
                }
                self.names.push(key);
                self.statuses.push(status);
                let ghost n = self.name_seq().len() - 1;
                assert(self.name_seq() =~= before.name_seq().push(name@));
                assert forall|a: int, b: int|
                    0 <= a < b < self.name_seq().len() implies self.name_seq()[a]
                    != self.name_seq()[b] by {
                    if b == n {
                        assert(before.name_seq()[a] == self.name_seq()[a]);
                    }
                }
                assert forall|m: Seq<char>| #[trigger]
                    self@.dom().contains(m) implies self@[m] == before@.insert(name@, status)[m] by {
                    let j = self.index_of(m);
                    assert(0 <= j < self.name_seq().len() && self.name_seq()[j] == m);
                    self.lemma_at(j);
                    if j < n {
                        before.lemma_at(j);
                    }
                }
                assert forall|m: Seq<char>|
                    #![auto]
                    before@.insert(name@, status).dom().contains(m) implies self@.dom().contains(
                        m,
                    ) by {
                    if m != name@ {
                        let j = before.index_of(m);
                        assert(0 <= j < before.name_seq().len() && before.name_seq()[j] == m);
                        assert(self.name_seq()[j] == m);
                    } else {
                        assert(self.name_seq()[n] == m);
                    }
                }
                assert forall|m: Seq<char>|
                    #![auto]
                    self@.dom().contains(m) implies before@.insert(name@, status).dom().contains(
                        m,
                    ) by {
                    let j = self.index_of(m);
                    assert(0 <= j < self.name_seq().len() && self.name_seq()[j] == m);
                    if j < n {
                        assert(before.name_seq()[j] == m);
                    }
                }
                assert(self@ =~= before@.insert(name@, status));
            },
        }
    }
}


/// After keeping `status` for `name`, looking `name` up gives `status`, and
/// looking up any other module gives what it gave before.
pub proof fn lemma_lookup_after_insert(
    before: Map<Seq<char>, ModuleStatus>,
    name: Seq<char>,
    status: ModuleStatus,
    other: Seq<char>,
)
    requires
        other != name,
    ensures
        before.insert(name, status).dom().contains(name),
        before.insert(name, status)[name] == status,
        before.insert(name, status).dom().contains(other) == before.dom().contains(other),
        before.dom().contains(other) ==> before.insert(name, status)[other] == before[other],
{
}

/// Every module of `valid` switched off.
pub open spec fn all_disabled(valid: Seq<Seq<char>>) -> Map<Seq<char>, ModuleStatus> {
    Map::new(|name: Seq<char>| valid.contains(name), |name: Seq<char>| ModuleStatus::Disabled)
}

/// The module an entry `name: status` of the configuration file names: the
/// trimmed text before its first colon.
pub open spec fn setting_key(entry: Seq<char>) -> Seq<char> {
    trim(split(entry, ':')[0])
}

/// The status an entry `name: status` of the configuration file gives: the
/// trimmed text between its first and second colon read as a status, and
/// `Disabled` where that is not a status.
pub open spec fn setting_status(entry: Seq<char>) -> ModuleStatus {
    let pieces = split(entry, ':');
    let value = if pieces.len() > 1 {
        pieces[1]
    } else {
        Seq::<char>::empty()
    };
    match parse_status(trim(value)) {
        Ok(status) => status,
        Err(_) => ModuleStatus::Disabled,
    }
}

/// `settings` after each entry in turn, where an entry counts only for a
/// module that the settings already hold.
pub open spec fn apply_settings(
    settings: Map<Seq<char>, ModuleStatus>,
    entries: Seq<Seq<char>>,
) -> Map<Seq<char>, ModuleStatus>
    decreases entries.len(),
{
    if entries.len() == 0 {
        settings
    } else {
        let before = apply_settings(settings, entries.drop_last());
        let key = setting_key(entries.last());
        if before.dom().contains(key) {
            before.insert(key, setting_status(entries.last()))
        } else {
            before
        }
    }
}

/// The settings after reading the configuration file `content`: every
/// valid module first switched off, then the file's entries, separated by
/// `;`, applied in order (none where the file is empty).
pub open spec fn loaded_settings(
    settings: Map<Seq<char>, ModuleStatus>,
    valid: Seq<Seq<char>>,
    content: Seq<char>,
) -> Map<Seq<char>, ModuleStatus> {
    let reset = settings.union_prefer_right(all_disabled(valid));
    if content.len() == 0 {
        reset
    } else {
        apply_settings(reset, split(content, ';'))
    }
}

/// The status that `settings` hold for `name`, `Disabled` where none.
pub open spec fn status_or_disabled(
    settings: Map<Seq<char>, ModuleStatus>,
    name: Seq<char>,
) -> ModuleStatus {
    if settings.dom().contains(name) {
        settings[name]
    } else {
        ModuleStatus::Disabled
    }
}

/// The entry `name: status` that is written for a module.
pub open spec fn setting_line(settings: Map<Seq<char>, ModuleStatus>, name: Seq<char>) -> Seq<
    char,
> {
    name + seq![':', ' '] + status_text(status_or_disabled(settings, name))
}

/// The configuration file written for the modules of `valid`: one entry per
/// module, in order, separated by `;` and a line break.
pub open spec fn configuration_text_of(
    settings: Map<Seq<char>, ModuleStatus>,
    valid: Seq<Seq<char>>,
) -> Seq<char> {
    join(valid.map_values(|name: Seq<char>| setting_line(settings, name)), seq![';', '\n'])
}

/// The token stored in the token file `content`: where the file holds a
/// colon, the trimmed text after its last colon; otherwise none.
pub open spec fn stored_token_of(content: Seq<char>) -> Option<Seq<char>> {
    if content.contains(':') {
        Some(trim(split(content, ':').last()))
    } else {
        None
    }
}

/// The token file written for a bot: `name: token` and a line break.
pub open spec fn token_line(name: Seq<char>, token: Seq<char>) -> Seq<char> {
    name + seq![':', ' '] + token + seq!['\n']
}

/// Reads the module configuration file `content` into `settings` (see
/// `loaded_settings`): the modules of `valid_modules` are switched off, then
/// each entry `name: status` of the file sets the status of a module that
/// the settings hold.
pub fn load_configuration(settings: &mut ModuleSettings, valid_modules: &Vec<String>, content: &str)
    requires
        old(settings).wf(),
    ensures
        final(settings).wf(),
        final(settings)@ == loaded_settings(old(settings)@, valid_modules.deep_view(), content@),
{
    let ghost start = settings@;
    let ghost valid = valid_modules.deep_view();
    let mut i: usize = 0;
    while i < valid_modules.len()
        invariant
            settings.wf(),
            i <= valid_modules@.len(),
            valid == valid_modules.deep_view(),
            settings@ == start.union_prefer_right(all_disabled(valid.take(i as int))),
        decreases valid_modules@.len() - i,
    {
        settings.insert(valid_modules[i].as_str(), ModuleStatus::Disabled);
        proof {
            let before = valid.take(i as int);
            let after = valid.take(i + 1);
            assert(after =~= before.push(valid[i as int]));
            assert forall|n: Seq<char>| #![auto] after.contains(n) <==> (before.contains(n) || n
                == valid[i as int]) by {
                if after.contains(n) && n != valid[i as int] {
                    let k = choose|k: int| 0 <= k < after.len() && after[k] == n;
                    assert(before[k] == n);
                }
                if before.contains(n) {
                    let k = choose|k: int| 0 <= k < before.len() && before[k] == n;
                    assert(after[k] == n);
                }
                if n == valid[i as int] {
                    assert(after[i as int] == n);
                }
            }
        }
        i = i + 1;
        assert(settings@ =~= start.union_prefer_right(all_disabled(valid.take(i as int))));
    }
    assert(valid.take(valid_modules@.len() as int) =~= valid);
    if content.is_empty() {
        return ;
    }
    let chars = chars_of(content);
    let entries = split_chars(&chars, ';');
    let ghost reset = settings@;
    let ghost entry_seq = entries.deep_view();
    let mut k: usize = 0;
    while k < entries.len()
        invariant
            settings.wf(),
            k <= entries@.len(),
            entry_seq == entries.deep_view(),
            settings@ == apply_settings(reset, entry_seq.take(k as int)),
        decreases entries@.len() - k,
    {
        proof {
            lemma_chars_deep_view(&entries@[k as int]);
        }
        let pieces = split_chars(&entries[k], ':');
        proof {
            lemma_split_len(entries@[k as int]@, ':');
            lemma_chars_deep_view(&pieces@[0]);
        }
        let key = string_of(&trim_chars(&pieces[0]));
        let value = if pieces.len() > 1 {
            proof {
                lemma_chars_deep_view(&pieces@[1]);
            }
            trim_chars(&pieces[1])
        } else {
            Vec::new()
        };
        let status = match ModuleStatus::from_str(string_of(&value).as_str()) {
            Ok(s) => s,
            Err(_) => ModuleStatus::Disabled,
        };
        if settings.get(key.as_str()).is_some() {
            settings.insert(key.as_str(), status);
        }
        assert(entry_seq.take(k + 1).drop_last() =~= entry_seq.take(k as int));
        k = k + 1;
    }
    assert(entry_seq.take(entries@.len() as int) =~= entry_seq);
}

/// The module configuration file for the modules of `valid_modules` (see
/// `configuration_text_of`).
pub fn configuration_text(settings: &ModuleSettings, valid_modules: &Vec<String>) -> (s: String)
    requires
        settings.wf(),
    ensures
        s@ == configuration_text_of(settings@, valid_modules.deep_view()),
{
    let ghost lines_spec = valid_modules.deep_view().map_values(
        |name: Seq<char>| setting_line(settings@, name),
    );
    let mut lines: Vec<String> = Vec::new();
    let mut i: usize = 0;
    while i < valid_modules.len()
        invariant
            settings.wf(),
            i <= valid_modules@.len(),
            lines_spec == valid_modules.deep_view().map_values(
                |name: Seq<char>| setting_line(settings@, name),
            ),
            lines.deep_view() == lines_spec.take(i as int),
        decreases valid_modules@.len() - i,
    {
        let name = valid_modules[i].as_str();
        let status = match settings.get(name) {
            Some(s) => s,
            None => ModuleStatus::Disabled,
        };
        let mut line = String::from_str(name);
        line.append(": ");
        line.append(status.to_string().as_str());
        proof {
            reveal_strlit(": ");
            assert(": "@ =~= seq![':', ' ']);
            assert(line@ =~= setting_line(settings@, valid_modules.deep_view()[i as int]));
        }
        let ghost before = lines.deep_view();
        lines.push(line);
        assert(lines.deep_view() =~= before.push(line@));
        i = i + 1;
        assert(lines.deep_view() =~= lines_spec.take(i as int));
    }
    assert(lines_spec.take(valid_modules@.len() as int) =~= lines_spec);
    let s = join_strings(&lines, ";\n");
    proof {
        reveal_strlit(";\n");
        assert(";\n"@ =~= seq![';', '\n']);
    }
    s
}

/// The token stored in the token file `content` (see `stored_token_of`).
pub fn stored_token(content: &str) -> (r: Option<String>)
    ensures
        match r {
            Some(token) => stored_token_of(content@) == Some(token@),
            None => stored_token_of(content@) == None::<Seq<char>>,
        },
{
    let chars = chars_of(content);
    if !has_char(&chars, ':') {
        return None;
    }
    let pieces = split_chars(&chars, ':');
    proof {
        lemma_split_len(chars@, ':');
        lemma_chars_deep_view(&pieces@[pieces@.len() - 1]);
    }
    let last = pieces.len() - 1;
    Some(string_of(&trim_chars(&pieces[last])))
}

/// The token file for the bot `name` with the application token `token`
/// (see `token_line`).
pub fn token_file_text(name: &str, token: &str) -> (s: String)
    ensures
        s@ == token_line(name@, token@),
{
    let mut s = String::from_str(name);
    s.append(": ");
    s.append(token);
    s.append("\n");
    proof {
        reveal_strlit(": ");
        reveal_strlit("\n");
        assert(s@ =~= token_line(name@, token@));
    }
    s
}


/// Reading back the token file gives the trimmed token, whenever the token
/// holds no colon (the bot's name may hold anything).
pub proof fn lemma_token_round_trip(name: Seq<char>, token: Seq<char>)
    requires
        !token.contains(':'),
    ensures
        stored_token_of(token_line(name, token)) == Some(trim(token)),
{
    let line = token_line(name, token);
    let rest = seq![' '] + (token + seq!['\n']);
    assert(line =~= name + seq![':'] + rest);
    assert(line[name.len() as int] == ':');
    lemma_concat_without(token, seq!['\n'], ':');
    lemma_concat_without(seq![' '], token + seq!['\n'], ':');
    lemma_split_concat(name, rest, ':');
    lemma_split_without_sep(rest, ':');
    lemma_split_len(name, ':');
    assert(split(line, ':').last() == rest);
    lemma_trim_after_space(' ', token + seq!['\n']);
    lemma_trim_before_space(token, '\n');
}

/// A module name that comes back from its entry: no white space at its
/// ends, and no `:` or `;`.
pub open spec fn plain_name(name: Seq<char>) -> bool {
    &&& trim(name) == name
    &&& !name.contains(':')
    &&& !name.contains(';')
}

/// The entry written for a plain module name, with or without a line break
/// in front, names that module and gives its status.
proof fn lemma_entry_reads_back(
    saved: Map<Seq<char>, ModuleStatus>,
    name: Seq<char>,
    lead: Seq<char>,
)
    requires
        plain_name(name),
        lead == Seq::<char>::empty() || lead == seq!['\n'],
    ensures
        setting_key(lead + setting_line(saved, name)) == name,
        setting_status(lead + setting_line(saved, name)) == status_or_disabled(saved, name),
        !setting_line(saved, name).contains(';'),
{
    let status = status_or_disabled(saved, name);
    let key = lead + name;
    let value = seq![' '] + status_text(status);
    assert(lead + setting_line(saved, name) =~= key + seq![':'] + value);
    lemma_status_text_plain(status);
    lemma_status_text_round_trip(status);
    assert(!lead.contains(':'));
    lemma_concat_without(lead, name, ':');
    lemma_concat_without(seq![' '], status_text(status), ':');
    lemma_concat_without(seq![' '], status_text(status), ';');
    lemma_concat_without(name, seq![':', ' '], ';');
    assert(setting_line(saved, name) =~= (name + seq![':', ' ']) + status_text(status));
    lemma_concat_without(name + seq![':', ' '], status_text(status), ';');
    lemma_split_concat(key, value, ':');
    lemma_split_without_sep(key, ':');
    lemma_split_without_sep(value, ':');
    assert(split(key + seq![':'] + value, ':') =~= seq![key, value]);
    if lead.len() > 0 {
        assert(key =~= seq!['\n'] + name);
        lemma_trim_after_space('\n', name);
    } else {
        assert(key =~= name);
    }
    lemma_trim_after_space(' ', status_text(status));
}

/// The settings after the first `count` entries written for `valid`.
proof fn lemma_apply_entries(
    reset: Map<Seq<char>, ModuleStatus>,
    valid: Seq<Seq<char>>,
    saved: Map<Seq<char>, ModuleStatus>,
    count: int,
)
    requires
        valid.len() >= 1,
        0 <= count <= valid.len(),
        forall|i: int| 0 <= i < valid.len() ==> plain_name(#[trigger] valid[i]),
        forall|i: int| 0 <= i < valid.len() ==> reset.dom().contains(#[trigger] valid[i]),
    ensures
        apply_settings(
            reset,
            led(valid.map_values(|name: Seq<char>| setting_line(saved, name)), seq!['\n']).take(
                count,
            ),
        ) == reset.union_prefer_right(
            Map::new(
                |n: Seq<char>| valid.take(count).contains(n),
                |n: Seq<char>| status_or_disabled(saved, n),
            ),
        ),
    decreases count,
{
    let entries = led(valid.map_values(|name: Seq<char>| setting_line(saved, name)), seq!['\n']);
    let target = reset.union_prefer_right(
        Map::new(
            |n: Seq<char>| valid.take(count).contains(n),
            |n: Seq<char>| status_or_disabled(saved, n),
        ),
    );
    if count == 0 {
        assert(entries.take(0) =~= Seq::<Seq<char>>::empty());
        assert(reset =~= target);
    } else {
        let i = count - 1;
        lemma_apply_entries(reset, valid, saved, i);
        assert(entries.take(count).drop_last() =~= entries.take(i));
        let name = valid[i];
        if i == 0 {
            assert(entries[i] == Seq::<char>::empty() + setting_line(saved, name)) by {
                assert(Seq::<char>::empty() + setting_line(saved, name) =~= setting_line(
                    saved,
                    name,
                ));
            }
            lemma_entry_reads_back(saved, name, Seq::<char>::empty());
        } else {
            lemma_entry_reads_back(saved, name, seq!['\n']);
        }
        assert(entries.take(count).last() == entries[i]);
        let before = reset.union_prefer_right(
            Map::new(
                |n: Seq<char>| valid.take(i).contains(n),
                |n: Seq<char>| status_or_disabled(saved, n),
            ),
        );
        assert(before.dom().contains(name));
        assert forall|n: Seq<char>| #![auto] valid.take(count).contains(n) <==> (valid.take(
            i,
        ).contains(n) || n == name) by {
            if valid.take(count).contains(n) && n != name {
                let k = choose|k: int| 0 <= k < count && valid.take(count)[k] == n;
                assert(valid.take(i)[k] == n);
            }
            if valid.take(i).contains(n) {
                let k = choose|k: int| 0 <= k < i && valid.take(i)[k] == n;
                assert(valid.take(count)[k] == n);
            }
            if n == name {
                assert(valid.take(count)[i] == n);
            }
        }
        assert(before.insert(name, status_or_disabled(saved, name)) =~= target);
    }
}

/// Reading back the configuration file written for the modules of `valid`
/// switches each of them as the written settings had it, and leaves every
/// other module as it was, whenever each name is plain (`plain_name`).
pub proof fn lemma_configuration_round_trip(
    settings: Map<Seq<char>, ModuleStatus>,
    valid: Seq<Seq<char>>,
    saved: Map<Seq<char>, ModuleStatus>,
)
    requires
        forall|i: int| 0 <= i < valid.len() ==> plain_name(#[trigger] valid[i]),
    ensures
        loaded_settings(settings, valid, configuration_text_of(saved, valid))
            == settings.union_prefer_right(
            Map::new(
                |n: Seq<char>| valid.contains(n),
                |n: Seq<char>| status_or_disabled(saved, n),
            ),
        ),
{
    let target = settings.union_prefer_right(
        Map::new(|n: Seq<char>| valid.contains(n), |n: Seq<char>| status_or_disabled(saved, n)),
    );
    let reset = settings.union_prefer_right(all_disabled(valid));
    let lines = valid.map_values(|name: Seq<char>| setting_line(saved, name));
    let text = configuration_text_of(saved, valid);
    if valid.len() == 0 {
        assert(reset =~= target);
    } else {
        assert forall|i: int| 0 <= i < lines.len() implies !(#[trigger] lines[i]).contains(';') by {
            lemma_entry_reads_back(saved, valid[i], Seq::<char>::empty());
        }
        assert(seq![';', '\n'] =~= seq![';'] + seq!['\n']);
        lemma_split_join_led(lines, ';', seq!['\n']);
        lemma_join_first(lines, seq![';', '\n']);
        assert(lines[0].len() > 0);
        assert forall|i: int| 0 <= i < valid.len() implies reset.dom().contains(
            #[trigger] valid[i],
        ) by {
            assert(valid.contains(valid[i]));
        }
        lemma_apply_entries(reset, valid, saved, valid.len() as int);
        assert(led(lines, seq!['\n']).take(valid.len() as int) =~= led(lines, seq!['\n']));
        assert(valid.take(valid.len() as int) =~= valid);
    }
}


/// Applying entries never adds or removes a module.
proof fn lemma_apply_keeps_modules(
    settings: Map<Seq<char>, ModuleStatus>,
    entries: Seq<Seq<char>>,
)
    ensures
        apply_settings(settings, entries).dom() == settings.dom(),
    decreases entries.len(),
{
    if entries.len() > 0 {
        lemma_apply_keeps_modules(settings, entries.drop_last());
        let before = apply_settings(settings, entries.drop_last());
        let key = setting_key(entries.last());
        if before.dom().contains(key) {
            assert(before.insert(key, setting_status(entries.last())).dom() =~= before.dom());
        }
    }
}

/// Reading a configuration file leaves settings for exactly the modules
/// held before and the valid ones: the file cannot add a module.
pub proof fn lemma_load_keeps_modules(
    settings: Map<Seq<char>, ModuleStatus>,
    valid: Seq<Seq<char>>,
    content: Seq<char>,
)
    ensures
        loaded_settings(settings, valid, content).dom() == settings.dom().union(
            Set::new(|n: Seq<char>| valid.contains(n)),
        ),
{
    let reset = settings.union_prefer_right(all_disabled(valid));
    assert(reset.dom() =~= settings.dom().union(Set::new(|n: Seq<char>| valid.contains(n))));
    if content.len() > 0 {
        lemma_apply_keeps_modules(reset, split(content, ';'));
    }
}


/// The token stored in a token file is the text after its last colon,
/// trimmed at both ends: for any text `before` (colons included) and any
/// colon-free `after`, the file `before:after` stores `trim(after)`.
pub proof fn lemma_token_after_last_colon(before: Seq<char>, after: Seq<char>)
    requires
        !after.contains(':'),
    ensures
        stored_token_of(before + seq![':'] + after) == Some(trim(after)),
{
    let content = before + seq![':'] + after;
    assert(content[before.len() as int] == ':');
    lemma_split_concat(before, after, ':');
    lemma_split_without_sep(after, ':');
    lemma_split_len(before, ':');
    assert(split(content, ':').last() == after);
}

/// An entry's status is read from its value with white space removed at
/// both ends: white space before or after a status text does not change the
/// status that the entry sets.
pub proof fn lemma_entry_status_ignores_white_space(
    name: Seq<char>,
    before: Seq<char>,
    status: ModuleStatus,
    after: Seq<char>,
)
    requires
        !name.contains(':'),
        all_space(before),
        all_space(after),
    ensures
        setting_status(name + seq![':'] + before + status_text(status) + after) == status,
{
    let text = status_text(status);
    let value = before + text + after;
    let entry = name + seq![':'] + before + text + after;
    assert(entry =~= name + seq![':'] + value);
    lemma_status_text_plain(status);
    lemma_status_text_round_trip(status);
    lemma_all_space_plain(before);
    lemma_all_space_plain(after);
    lemma_concat_without(before, text, ':');
    lemma_concat_without(before + text, after, ':');
    lemma_split_concat(name, value, ':');
    lemma_split_without_sep(name, ':');
    lemma_split_without_sep(value, ':');
    assert(split(entry, ':') =~= seq![name, value]);
    lemma_trim_padded(before, text, after);
}

/// Reading a configuration file that holds one entry for a valid module,
/// with white space around the module's name and around its status, sets
/// that module to that status.
pub proof fn lemma_load_single_entry(
    settings: Map<Seq<char>, ModuleStatus>,
    valid: Seq<Seq<char>>,
    name: Seq<char>,
    status: ModuleStatus,
    space1: Seq<char>,
    space2: Seq<char>,
    space3: Seq<char>,
    space4: Seq<char>,
)
    requires
        valid.contains(name),
        trim(name) == name,
        !name.contains(':'),
        !name.contains(';'),
        all_space(space1),
        all_space(space2),
        all_space(space3),
        all_space(space4),
    ensures
        loaded_settings(
            settings,
            valid,
            space1 + name + space2 + seq![':'] + space3 + status_text(status) + space4,
        ).dom().contains(name),
        loaded_settings(
            settings,
            valid,
            space1 + name + space2 + seq![':'] + space3 + status_text(status) + space4,
        )[name] == status,
{
    let key = space1 + name + space2;
    let content = key + seq![':'] + space3 + status_text(status) + space4;
    assert(content =~= space1 + name + space2 + seq![':'] + space3 + status_text(status) + space4);
    lemma_all_space_plain(space1);
    lemma_all_space_plain(space2);
    lemma_all_space_plain(space3);
    lemma_all_space_plain(space4);
    lemma_status_text_plain(status);
    lemma_concat_without(space1, name, ':');
    lemma_concat_without(space1 + name, space2, ':');
    lemma_entry_status_ignores_white_space(key, space3, status, space4);
    // the file holds no `;`, so it is one entry
    lemma_concat_without(space1, name, ';');
    lemma_concat_without(space1 + name, space2, ';');
    lemma_concat_without(key, seq![':'], ';');
    lemma_concat_without(key + seq![':'], space3, ';');
    lemma_concat_without(key + seq![':'] + space3, status_text(status), ';');
    lemma_concat_without(key + seq![':'] + space3 + status_text(status), space4, ';');
    lemma_split_without_sep(content, ';');
    assert(content.len() > 0);
    // its key is the trimmed name
    let value = space3 + status_text(status) + space4;
    assert(content =~= key + seq![':'] + value);
    lemma_split_concat(key, value, ':');
    lemma_split_without_sep(key, ':');
    lemma_split_len(value, ':');
    assert(split(content, ':')[0] == key);
    lemma_trim_padded(space1, name, space2);
    let reset = settings.union_prefer_right(all_disabled(valid));
    assert(reset.dom().contains(name));
    assert(seq![content].drop_last() =~= Seq::<Seq<char>>::empty());
    assert(seq![content].last() == content);
    assert(setting_key(content) == name);
    assert(setting_status(content) == status);
    assert(split(content, ';') == seq![content]);
    assert(apply_settings(reset, Seq::<Seq<char>>::empty()) == reset);
    assert(apply_settings(reset, seq![content]) == reset.insert(name, status));
}


/// Entries are applied in order: whatever comes before it, the last entry
/// of a configuration file sets the status of its (valid) module.
pub proof fn lemma_later_entry_wins(
    settings: Map<Seq<char>, ModuleStatus>,
    valid: Seq<Seq<char>>,
    earlier: Seq<char>,
    name: Seq<char>,
    status: ModuleStatus,
)
    requires
        valid.contains(name),
        plain_name(name),
    ensures
        loaded_settings(
            settings,
            valid,
            earlier + seq![';'] + name + seq![':', ' '] + status_text(status),
        )[name] == status,
{
    let entry = name + seq![':', ' '] + status_text(status);
    let content = earlier + seq![';'] + entry;
    assert(content =~= earlier + seq![';'] + name + seq![':', ' '] + status_text(status));
    lemma_status_text_plain(status);
    lemma_concat_without(name, seq![':', ' '], ';');
    lemma_concat_without(name + seq![':', ' '], status_text(status), ';');
    lemma_split_concat(earlier, entry, ';');
    lemma_split_without_sep(entry, ';');
    let entries = split(content, ';');
    let previous = split(earlier, ';');
    assert(entries =~= previous.push(entry));
    assert(entries.drop_last() =~= previous);
    assert(content.len() > 0);
    let reset = settings.union_prefer_right(all_disabled(valid));
    lemma_apply_keeps_modules(reset, previous);
    assert(reset.dom().contains(name));
    // the entry names the module and gives the status
    assert(all_space(seq![' '])) by {
        assert(is_space(' '));
    }
    assert(all_space(Seq::<char>::empty()));
    assert(entry =~= name + seq![':'] + seq![' '] + status_text(status) + Seq::<char>::empty());
    lemma_entry_status_ignores_white_space(name, seq![' '], status, Seq::<char>::empty());
    let value = seq![' '] + status_text(status);
    assert(entry =~= name + seq![':'] + value);
    lemma_split_concat(name, value, ':');
    lemma_split_without_sep(name, ':');
    lemma_split_len(value, ':');
    assert(split(entry, ':')[0] == name);
    assert(setting_key(entry) == name);
}

} // verus!
