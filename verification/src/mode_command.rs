//! Spoken commands that ask for or change the recognition mode.
//!
//! They are deliberately narrow: only an utterance that is nothing but the command counts, and
//! changing a setting takes a name to be called by.
use crate::json::{
    as_flag, as_items, as_text, document, empty_object, flag_in, get, holds, is_object, items,
    lemma_members_alike, member, member_text, members, pretty, put_text, read, reads_alike, write_pretty,
};
use crate::text::{
    chars_of, ends_with, is_one_of, is_plain, is_space, lower_chars, lower_of, lowered, owned, same,
    space, starts_with, string_of, strip_prefix, strip_suffix, texts,
};
use serde_json::Value;
use vstd::prelude::*;
use vstd::slice::slice_subrange;

verus! {

/// What an utterance asks for.
#[derive(Debug, Clone, Copy, PartialEq, Eq)]
pub enum Command {
    /// Tell the current mode.
    Status,
    /// Switch to the named mode.
    Switch(&'static str),
}

/// The mathematical counterpart of [`Command`].
pub enum Meaning {
    Status,
    Switch(Seq<char>),
}

impl View for Command {
    type V = Meaning;

    open spec fn view(&self) -> Meaning {
        match self {
            Command::Status => Meaning::Status,
            Command::Switch(mode) => Meaning::Switch(mode@),
        }
    }
}

/// Which feedback the user wants for mode commands.
#[derive(Debug, Clone, Copy, PartialEq, Eq)]
pub struct Settings {
    pub enabled: bool,
    pub sound: bool,
    pub notification: bool,
}

impl Default for Settings {
    fn default() -> (r: Settings)
        ensures
            r.enabled && r.sound && r.notification,
    {
        Settings { enabled: true, sound: true, notification: true }
    }
}

/// What the member `key` of the settings says: `true` where there is none, nothing where it is
/// neither `true` nor `false`.
pub open spec fn flag_of(v: Value, key: Seq<char>) -> Option<bool> {
    match member(v, key) {
        Some(w) => flag_in(w),
        None => Some(true),
    }
}

/// What item `i` of a list of settings says: `true` where the list is shorter.
pub open spec fn listed_flag(list: Seq<Value>, i: int) -> Option<bool> {
    if i < list.len() {
        flag_in(list[i])
    } else {
        Some(true)
    }
}

/// The three settings, if each of them is known.
pub open spec fn all_known(e: Option<bool>, s: Option<bool>, n: Option<bool>) -> Option<Settings> {
    match (e, s, n) {
        (Some(enabled), Some(sound), Some(notification)) => Some(
            Settings { enabled, sound, notification },
        ),
        _ => None,
    }
}

/// The settings that a value holds: an object, or a list of at most three, in which each of them is
/// missing, `true` or `false`.
pub open spec fn feedback_of(v: Value) -> Option<Settings> {
    match members(v) {
        Some(_) => all_known(
            flag_of(v, "enabled"@),
            flag_of(v, "sound"@),
            flag_of(v, "notification"@),
        ),
        None => match items(v) {
            Some(list) => if list.len() <= 3 {
                all_known(listed_flag(list, 0), listed_flag(list, 1), listed_flag(list, 2))
            } else {
                None
            },
            None => None,
        },
    }
}

/// The settings that the member `mode_commands` of the settings file holds.
pub open spec fn feedback_in(file: Option<Seq<u8>>) -> Option<Settings> {
    match file {
        Some(bytes) => match document(bytes) {
            Some(doc) => match member(doc, "mode_commands"@) {
                Some(v) => feedback_of(v),
                None => None,
            },
            None => None,
        },
        None => None,
    }
}

fn flag(v: &Value, key: &str) -> (r: Option<bool>)
    ensures
        r == flag_of(*v, key@),
{
    match get(v, key) {
        Some(w) => as_flag(w),
        None => Some(true),
    }
}

fn flag_at(list: &Vec<Value>, i: usize) -> (r: Option<bool>)
    ensures
        r == listed_flag(list@, i as int),
{
    if i < list.len() {
        as_flag(&list[i])
    } else {
        Some(true)
    }
}

fn known(e: Option<bool>, s: Option<bool>, n: Option<bool>) -> (r: Option<Settings>)
    ensures
        r == all_known(e, s, n),
{
    match (e, s, n) {
        (Some(enabled), Some(sound), Some(notification)) => Some(
            Settings { enabled, sound, notification },
        ),
        _ => None,
    }
}

fn feedback(v: &Value) -> (r: Option<Settings>)
    ensures
        r == feedback_of(*v),
{
    if is_object(v) {
        return known(flag(v, "enabled"), flag(v, "sound"), flag(v, "notification"));
    }
    match as_items(v) {
        Some(list) => if list.len() <= 3 {
            known(flag_at(list, 0), flag_at(list, 1), flag_at(list, 2))
        } else {
            None
        },
        None => None,
    }
}

/// The settings in the settings file, if it can be read; everything is on where it holds none.
pub fn settings(file: Option<&[u8]>) -> (r: Settings)
    ensures
        match feedback_in(contents(file)) {
            Some(s) => r == s,
            None => r.enabled && r.sound && r.notification,
        },
{
    if let Some(bytes) = file {
        if let Some(doc) = read(bytes) {
            if let Some(v) = get(&doc, "mode_commands") {
                if let Some(s) = feedback(v) {
                    return s;
                }
            }
        }
    }
    Settings::default()
}

// ---------------------------------------------------------------------------------------------
// What was said, as a plain run of characters
// ---------------------------------------------------------------------------------------------

/// Punctuation that a recogniser adds and that carries no meaning here.
pub open spec fn is_punctuation(c: char) -> bool {
    ||| c == ','
    ||| c == '，'
    ||| c == '。'
    ||| c == '.'
    ||| c == '!'
    ||| c == '！'
    ||| c == '?'
    ||| c == '？'
    ||| c == ':'
    ||| c == '：'
}

/// The traditional form of the simplified characters that occur in commands.
pub open spec fn traditional(c: char) -> char {
    if c == '现' {
        '現'
    } else if c == '换' {
        '換'
    } else if c == '么' {
        '麼'
    } else if c == '帮' {
        '幫'
    } else if c == '个' {
        '個'
    } else if c == '线' {
        '線'
    } else if c == '离' {
        '離'
    } else if c == '请' {
        '請'
    } else {
        c
    }
}

/// `s` without white space and punctuation, in traditional characters.
pub open spec fn spoken(s: Seq<char>) -> Seq<char>
    decreases s.len(),
{
    if s.len() == 0 {
        seq![]
    } else {
        let c = s.last();
        let before = spoken(s.drop_last());
        if is_space(c) || is_punctuation(c) {
            before
        } else {
            before.push(traditional(c))
        }
    }
}

// ---------------------------------------------------------------------------------------------
// The grammar
// ---------------------------------------------------------------------------------------------

/// Words that may open an utterance.
pub open spec fn greetings() -> Seq<Seq<char>> {
    seq!["hey"@, "嘿"@]
}

/// The names that the recogniser writes for a call to Mori.
pub open spec fn names() -> Seq<Seq<char>> {
    seq![
        "mori"@,
        "moris"@,
        "morris"@,
        "maurice"@,
        "morley"@,
        "mory"@,
        "molly"@,
        "morning"@,
        "莫莉"@,
        "茉莉"@,
        "摩利"@,
        "摩里"@,
        "莫里"@,
        "莫里斯"@,
        "毛利"@,
        "毛蕊"@,
        "貓咪"@,
        "猫咪"@,
        "魔力"@,
    ]
}

/// Polite openings.
pub open spec fn courtesies() -> Seq<Seq<char>> {
    seq!["請問"@, "請"@]
}

/// Closing particles.
pub open spec fn particles() -> Seq<Seq<char>> {
    seq!["呢"@, "啊"@]
}

/// The pronoun that may stand before a question.
pub open spec fn pronouns() -> Seq<Seq<char>> {
    seq!["你"@]
}

/// The questions about the current mode.
pub open spec fn questions() -> Seq<Seq<char>> {
    seq![
        "現在是什麼模式"@,
        "現在怎麼模式"@,
        "現在在做什麼模式"@,
        "現在在什麼模式"@,
        "現在用的是什麼模式"@,
        "現在是甚麼模式"@,
        "甚麼模式"@,
        "目前是什麼模式"@,
        "現在什麼模式"@,
        "現在用什麼模式"@,
        "現在使用什麼模式"@,
        "目前用什麼模式"@,
        "目前的模式是什麼"@,
        "現在的模式是什麼"@,
        "是什麼模式"@,
        "什麼模式"@,
        "現在用哪個模式"@,
        "目前用哪個模式"@,
        "現在是哪個模式"@,
        "目前是哪個模式"@,
        "現在是什麼辨識模式"@,
        "現在是什麼识别模式"@,
    ]
}

/// Requests for help before an order.
pub open spec fn helps() -> Seq<Seq<char>> {
    seq!["幫我"@, "幫忙"@]
}

/// The verbs of switching.
pub open spec fn verbs() -> Seq<Seq<char>> {
    seq![
        "切換到"@,
        "切換成"@,
        "切換為"@,
        "切到"@,
        "切成"@,
        "換成"@,
        "換到"@,
        "改成"@,
        "改用"@,
        "切換"@,
    ]
}

/// The word "mode" after its name.
pub open spec fn mode_words() -> Seq<Seq<char>> {
    seq!["模式"@]
}

/// The words for automatic mode.
pub open spec fn auto_words() -> Seq<Seq<char>> {
    seq!["auto"@, "otto"@, "自動"@, "自动"@]
}

/// The words for cloud mode.
pub open spec fn groq_words() -> Seq<Seq<char>> {
    seq![
        "groq"@,
        "grok"@,
        "groque"@,
        "雲端"@,
        "云端"@,
        "線上"@,
        "在線"@,
        "在綫"@,
    ]
}

/// The words for local mode.
pub open spec fn local_words() -> Seq<Seq<char>> {
    seq!["local"@, "loko"@, "本機"@, "本机"@, "本地"@, "離線"@]
}

/// What is left of `s` after the first of `list` that it begins with.
pub open spec fn after_prefix(s: Seq<char>, list: Seq<Seq<char>>) -> Option<Seq<char>>
    decreases list.len(),
{
    if list.len() == 0 {
        None
    } else if starts_with(s, list[0]) {
        Some(s.skip(list[0].len() as int))
    } else {
        after_prefix(s, list.drop_first())
    }
}

/// What is left of `s` before the first of `list` that it ends with.
pub open spec fn before_suffix(s: Seq<char>, list: Seq<Seq<char>>) -> Option<Seq<char>>
    decreases list.len(),
{
    if list.len() == 0 {
        None
    } else if ends_with(s, list[0]) {
        Some(s.take(s.len() - list[0].len()))
    } else {
        before_suffix(s, list.drop_first())
    }
}

/// `s` without the first of `list` that it begins with.
pub open spec fn without_prefix(s: Seq<char>, list: Seq<Seq<char>>) -> Seq<char> {
    match after_prefix(s, list) {
        Some(t) => t,
        None => s,
    }
}

/// `s` without the first of `list` that it ends with.
pub open spec fn without_suffix(s: Seq<char>, list: Seq<Seq<char>>) -> Seq<char> {
    match before_suffix(s, list) {
        Some(t) => t,
        None => s,
    }
}

/// The length of the longest of `list` that `s` begins with, or zero.
pub open spec fn longest_prefix(s: Seq<char>, list: Seq<Seq<char>>) -> nat
    decreases list.len(),
{
    if list.len() == 0 {
        0
    } else {
        let others = longest_prefix(s, list.drop_last());
        let name = list.last();
        if starts_with(s, name) && name.len() > others {
            name.len()
        } else {
            others
        }
    }
}

/// The mode that a word stands for.
pub open spec fn mode_for(word: Seq<char>) -> Option<Seq<char>> {
    if auto_words().contains(word) {
        Some("auto"@)
    } else if groq_words().contains(word) {
        Some("groq"@)
    } else if local_words().contains(word) {
        Some("local"@)
    } else {
        None
    }
}

/// The part of an utterance after the greeting and the name, without courtesy and particle.
pub open spec fn request_in(s: Seq<char>) -> Seq<char> {
    let s = without_prefix(s, greetings());
    let s = s.skip(longest_prefix(s, names()) as int);
    without_suffix(without_prefix(s, courtesies()), particles())
}

/// Whether the utterance calls Mori by a name.
pub open spec fn is_addressed(s: Seq<char>) -> bool {
    longest_prefix(without_prefix(s, greetings()), names()) > 0
}

/// The command that a plain run of characters is.
pub open spec fn command_in(s: Seq<char>) -> Option<Meaning> {
    let request = request_in(s);
    if questions().contains(without_prefix(request, pronouns())) {
        Some(Meaning::Status)
    } else if !is_addressed(s) {
        None
    } else {
        match after_prefix(without_prefix(request, helps()), verbs()) {
            Some(t) => match mode_for(without_suffix(t, mode_words())) {
                Some(m) => Some(Meaning::Switch(m)),
                None => None,
            },
            None => None,
        }
    }
}

// ---------------------------------------------------------------------------------------------
// Recognising
// ---------------------------------------------------------------------------------------------

fn greeting_list() -> (r: Vec<&'static str>)
    ensures
        texts(r@) == greetings(),
{
    let r = vec!["hey", "嘿"];
    assert(texts(r@) =~= greetings());
    r
}

fn name_list() -> (r: Vec<&'static str>)
    ensures
        texts(r@) == names(),
{
    let r = vec![
        "mori",
        "moris",
        "morris",
        "maurice",
        "morley",
        "mory",
        "molly",
        "morning",
        "莫莉",
        "茉莉",
        "摩利",
        "摩里",
        "莫里",
        "莫里斯",
        "毛利",
        "毛蕊",
        "貓咪",
        "猫咪",
        "魔力",
    ];
    assert(texts(r@) =~= names());
    r
}

fn courtesy_list() -> (r: Vec<&'static str>)
    ensures
        texts(r@) == courtesies(),
{
    let r = vec!["請問", "請"];
    assert(texts(r@) =~= courtesies());
    r
}

fn particle_list() -> (r: Vec<&'static str>)
    ensures
        texts(r@) == particles(),
{
    let r = vec!["呢", "啊"];
    assert(texts(r@) =~= particles());
    r
}

fn pronoun_list() -> (r: Vec<&'static str>)
    ensures
        texts(r@) == pronouns(),
{
    let r = vec!["你"];
    assert(texts(r@) =~= pronouns());
    r
}

fn question_list() -> (r: Vec<&'static str>)
    ensures
        texts(r@) == questions(),
{
    let r = vec![
        "現在是什麼模式",
        "現在怎麼模式",
        "現在在做什麼模式",
        "現在在什麼模式",
        "現在用的是什麼模式",
        "現在是甚麼模式",
        "甚麼模式",
        "目前是什麼模式",
        "現在什麼模式",
        "現在用什麼模式",
        "現在使用什麼模式",
        "目前用什麼模式",
        "目前的模式是什麼",
        "現在的模式是什麼",
        "是什麼模式",
        "什麼模式",
        "現在用哪個模式",
        "目前用哪個模式",
        "現在是哪個模式",
        "目前是哪個模式",
        "現在是什麼辨識模式",
        "現在是什麼识别模式",
    ];
    assert(texts(r@) =~= questions());
    r
}

fn help_list() -> (r: Vec<&'static str>)
    ensures
        texts(r@) == helps(),
{
    let r = vec!["幫我", "幫忙"];
    assert(texts(r@) =~= helps());
    r
}

fn verb_list() -> (r: Vec<&'static str>)
    ensures
        texts(r@) == verbs(),
{
    let r = vec![
        "切換到",
        "切換成",
        "切換為",
        "切到",
        "切成",
        "換成",
        "換到",
        "改成",
        "改用",
        "切換",
    ];
    assert(texts(r@) =~= verbs());
    r
}

fn mode_word_list() -> (r: Vec<&'static str>)
    ensures
        texts(r@) == mode_words(),
{
    let r = vec!["模式"];
    assert(texts(r@) =~= mode_words());
    r
}

fn auto_list() -> (r: Vec<&'static str>)
    ensures
        texts(r@) == auto_words(),
{
    let r = vec!["auto", "otto", "自動", "自动"];
    assert(texts(r@) =~= auto_words());
    r
}

fn groq_list() -> (r: Vec<&'static str>)
    ensures
        texts(r@) == groq_words(),
{
    let r = vec!["groq", "grok", "groque", "雲端", "云端", "線上", "在線", "在綫"];
    assert(texts(r@) =~= groq_words());
    r
}

fn local_list() -> (r: Vec<&'static str>)
    ensures
        texts(r@) == local_words(),
{
    let r = vec!["local", "loko", "本機", "本机", "本地", "離線"];
    assert(texts(r@) =~= local_words());
    r
}

/// Decides [`is_punctuation`].
fn punctuation(c: char) -> (r: bool)
    ensures
        r == is_punctuation(c),
{
    c == ',' || c == '，' || c == '。' || c == '.' || c == '!' || c == '！' || c == '?' || c == '？'
        || c == ':' || c == '：'
}

/// Computes [`traditional`].
fn to_traditional(c: char) -> (r: char)
    ensures
        r == traditional(c),
{
    if c == '现' {
        '現'
    } else if c == '换' {
        '換'
    } else if c == '么' {
        '麼'
    } else if c == '帮' {
        '幫'
    } else if c == '个' {
        '個'
    } else if c == '线' {
        '線'
    } else if c == '离' {
        '離'
    } else if c == '请' {
        '請'
    } else {
        c
    }
}

/// Computes [`spoken`].
fn plain(s: &[char]) -> (r: Vec<char>)
    ensures
        r@ == spoken(s@),
{
    let mut out: Vec<char> = Vec::new();
    let mut i: usize = 0;
    while i < s.len()
        invariant
            i <= s@.len(),
            out@ == spoken(s@.take(i as int)),
        decreases s@.len() - i,
    {
        let c = s[i];
        proof {
            assert(s@.take(i + 1).drop_last() =~= s@.take(i as int));
            assert(s@.take(i + 1).last() == c);
        }
        if !space(c) && !punctuation(c) {
            out.push(to_traditional(c));
        }
        i = i + 1;
    }
    assert(s@.take(i as int) =~= s@);
    out
}

/// What is left of `s` after the first of `list` that it begins with.
fn skip_prefix<'a>(s: &'a [char], list: &[&'static str]) -> (r: Option<&'a [char]>)
    ensures
        match after_prefix(s@, texts(list@)) {
            Some(t) => r matches Some(x) && x@ == t,
            None => r is None,
        },
{
    let mut i: usize = 0;
    let ghost all = texts(list@);
    assert(all.skip(0) =~= all);
    while i < list.len()
        invariant
            i <= list@.len(),
            all == texts(list@),
            after_prefix(s@, all.skip(i as int)) == after_prefix(s@, all),
        decreases list@.len() - i,
    {
        assert(all.skip(i as int)[0] == list@[i as int]@);
        assert(all.skip(i as int).drop_first() =~= all.skip(i + 1));
        match strip_prefix(s, list[i]) {
            Some(t) => {
                return Some(t);
            },
            None => {},
        }
        i = i + 1;
    }
    None
}

/// What is left of `s` before the first of `list` that it ends with.
fn skip_suffix<'a>(s: &'a [char], list: &[&'static str]) -> (r: Option<&'a [char]>)
    ensures
        match before_suffix(s@, texts(list@)) {
            Some(t) => r matches Some(x) && x@ == t,
            None => r is None,
        },
{
    let mut i: usize = 0;
    let ghost all = texts(list@);
    assert(all.skip(0) =~= all);
    while i < list.len()
        invariant
            i <= list@.len(),
            all == texts(list@),
            before_suffix(s@, all.skip(i as int)) == before_suffix(s@, all),
        decreases list@.len() - i,
    {
        assert(all.skip(i as int)[0] == list@[i as int]@);
        assert(all.skip(i as int).drop_first() =~= all.skip(i + 1));
        match strip_suffix(s, list[i]) {
            Some(t) => {
                return Some(t);
            },
            None => {},
        }
        i = i + 1;
    }
    None
}

/// Computes [`without_prefix`].
fn drop_prefix<'a>(s: &'a [char], list: Vec<&'static str>) -> (r: &'a [char])
    ensures
        r@ == without_prefix(s@, texts(list@)),
{
    match skip_prefix(s, list.as_slice()) {
        Some(t) => t,
        None => s,
    }
}

/// Computes [`without_suffix`].
fn drop_suffix<'a>(s: &'a [char], list: Vec<&'static str>) -> (r: &'a [char])
    ensures
        r@ == without_suffix(s@, texts(list@)),
{
    match skip_suffix(s, list.as_slice()) {
        Some(t) => t,
        None => s,
    }
}

/// Computes [`longest_prefix`] for the names.
fn called(s: &[char]) -> (r: usize)
    ensures
        r == longest_prefix(s@, names()),
        r <= s@.len(),
{
    let list = name_list();
    let ghost all = texts(list@);
    let mut best: usize = 0;
    let mut i: usize = 0;
    while i < list.len()
        invariant
            i <= list@.len(),
            all == texts(list@),
            best <= s@.len(),
            best == longest_prefix(s@, all.take(i as int)),
        decreases list@.len() - i,
    {
        proof {
            let now = all.take(i + 1);
            assert(now.drop_last() =~= all.take(i as int));
            assert(now.last() == list@[i as int]@);
        }
        let n: usize = s.len();
        match strip_prefix(s, list[i]) {
            Some(t) => {
                let len: usize = n - t.len();
                if len > best {
                    best = len;
                }
            },
            None => {},
        }
        i = i + 1;
    }
    assert(all.take(i as int) =~= names());
    best
}

/// The mode that a word stands for.
fn mode_of_word(s: &[char]) -> (r: Option<&'static str>)
    ensures
        match mode_for(s@) {
            Some(m) => r matches Some(x) && x@ == m,
            None => r is None,
        },
{
    let autos = auto_list();
    let groqs = groq_list();
    let locals = local_list();
    if is_one_of(s, autos.as_slice()) {
        Some("auto")
    } else if is_one_of(s, groqs.as_slice()) {
        Some("groq")
    } else if is_one_of(s, locals.as_slice()) {
        Some("local")
    } else {
        None
    }
}

/// Whether `r` is the command that means `m`.
pub open spec fn means(r: Option<Command>, m: Option<Meaning>) -> bool {
    match m {
        Some(m) => r matches Some(c) && c@ == m,
        None => r is None,
    }
}

/// The command that a text in lower case is.
pub fn parse_lowered(lowered: &str) -> (r: Option<Command>)
    ensures
        means(r, command_in(spoken(lowered@))),
{
    let cs = chars_of(lowered);
    let all = plain(cs.as_slice());
    let s = drop_prefix(all.as_slice(), greeting_list());
    let n: usize = s.len();
    let name: usize = called(s);
    let rest = slice_subrange(s, name, n);
    assert(rest@ =~= s@.skip(name as int));
    let request = drop_suffix(drop_prefix(rest, courtesy_list()), particle_list());
    let question = drop_prefix(request, pronoun_list());
    let asked = question_list();
    if is_one_of(question, asked.as_slice()) {
        return Some(Command::Status);
    }
    // A question only reads; changing a setting takes a name.
    if name == 0 {
        return None;
    }
    let order = drop_prefix(request, help_list());
    let verbs = verb_list();
    match skip_prefix(order, verbs.as_slice()) {
        Some(t) => match mode_of_word(drop_suffix(t, mode_word_list())) {
            Some(m) => Some(Command::Switch(m)),
            None => None,
        },
        None => None,
    }
}

/// The command that an utterance is. It is put in lower case character by character: the one letter
/// whose lower case depends on its place, the Greek sigma, is in no command.
pub open spec fn command_of(text: Seq<char>) -> Option<Meaning> {
    command_in(spoken(lowered(text)))
}

/// The command that an utterance is, if it is one.
pub fn parse(text: &str) -> (r: Option<Command>)
    ensures
        means(r, command_of(text@)),
{
    let cs = chars_of(text);
    let low = string_of(lower_chars(cs.as_slice()).as_slice());
    parse_lowered(low.as_str())
}

/// The command in a text that cleanup has rewritten: cleanup may repair a question, but it can
/// never authorise a change of settings.
pub fn status_after_cleanup(text: &str) -> (r: Option<Command>)
    ensures
        r == if command_of(text@) == Some(Meaning::Status) {
            Some(Command::Status)
        } else {
            None
        },
{
    match parse(text) {
        Some(Command::Status) => Some(Command::Status),
        _ => None,
    }
}

// ---------------------------------------------------------------------------------------------
// The mode in the settings file
// ---------------------------------------------------------------------------------------------

/// Whether `mode` names a recognition mode.
pub open spec fn is_mode(mode: Seq<char>) -> bool {
    mode == "auto"@ || mode == "groq"@ || mode == "local"@
}

/// What is in an optional file.
pub open spec fn contents(file: Option<&[u8]>) -> Option<Seq<u8>> {
    match file {
        Some(b) => Some(b@),
        None => None,
    }
}

/// The mode that a settings file sets: its `backend`, if that names one.
pub open spec fn mode_in(file: Option<Seq<u8>>) -> Option<Seq<char>> {
    match file {
        Some(bytes) => match document(bytes) {
            Some(v) => match member_text(v, "backend"@) {
                Some(m) => if is_mode(m) {
                    Some(m)
                } else {
                    None
                },
                None => None,
            },
            None => None,
        },
        None => None,
    }
}

/// Decides [`is_mode`].
pub fn known_mode(mode: &str) -> (r: bool)
    ensures
        r == is_mode(mode@),
{
    same(mode, "auto") || same(mode, "groq") || same(mode, "local")
}

/// The current mode: the one that the settings file sets, else `fallback`.
pub fn current(file: Option<&[u8]>, fallback: &str) -> (r: String)
    ensures
        r@ == match mode_in(contents(file)) {
            Some(m) => m,
            None => fallback@,
        },
{
    match file {
        Some(bytes) => match read(bytes) {
            Some(v) => match get(&v, "backend") {
                Some(b) => match as_text(b) {
                    Some(m) => if known_mode(m) {
                        owned(m)
                    } else {
                        owned(fallback)
                    },
                    None => owned(fallback),
                },
                None => owned(fallback),
            },
            None => owned(fallback),
        },
        None => owned(fallback),
    }
}

/// Why a mode was not switched.
#[derive(Debug, Clone, Copy, PartialEq, Eq, Structural)]
pub enum SaveError {
    /// There is no such mode.
    UnknownMode,
    /// Cloud mode takes a Groq key, and there is none.
    NoKey,
    /// The settings file is no JSON.
    Broken,
    /// The settings file is no JSON object.
    NotAnObject,
    /// The file that was written does not set the mode.
    NotSaved,
}

impl SaveError {
    /// The reason in words.
    pub fn message(&self) -> (r: &'static str)
        ensures
            r@ == match self {
                SaveError::UnknownMode => "未知辨識模式"@,
                SaveError::NoKey => "沒有 Groq API key，模式未切換"@,
                SaveError::Broken => "設定檔 JSON 損壞，模式未切換"@,
                SaveError::NotAnObject => "設定檔必須是 JSON object"@,
                SaveError::NotSaved => "模式設定驗證失敗"@,
            },
    {
        match self {
            SaveError::UnknownMode => "未知辨識模式",
            SaveError::NoKey => "沒有 Groq API key，模式未切換",
            SaveError::Broken => "設定檔 JSON 損壞，模式未切換",
            SaveError::NotAnObject => "設定檔必須是 JSON object",
            SaveError::NotSaved => "模式設定驗證失敗",
        }
    }
}

/// Why the settings in `file` cannot be switched to `mode`, if they cannot.
pub open spec fn refusal(file: Option<Seq<u8>>, mode: Seq<char>, has_key: bool) -> Option<
    SaveError,
> {
    if !is_mode(mode) {
        Some(SaveError::UnknownMode)
    } else if mode == "groq"@ && !has_key {
        Some(SaveError::NoKey)
    } else {
        match file {
            Some(bytes) => match document(bytes) {
                Some(v) => if members(v) is Some {
                    None
                } else {
                    Some(SaveError::NotAnObject)
                },
                None => Some(SaveError::Broken),
            },
            None => None,
        }
    }
}

/// The members of the settings in `file`; a file that is not there has none.
pub open spec fn settings_in(file: Option<Seq<u8>>) -> Map<Seq<char>, Value> {
    match file {
        Some(bytes) => members(document(bytes)->0)->0,
        None => Map::empty(),
    }
}

/// Whether `v` is the settings in `file` with `backend` set to `mode` and nothing else changed.
pub open spec fn is_switched(v: Value, file: Option<Seq<u8>>, mode: Seq<char>) -> bool {
    &&& members(v) == Some(settings_in(file).insert("backend"@, member(v, "backend"@)->0))
    &&& member_text(v, "backend"@) == Some(mode)
}

/// Whether `new` is the file of the settings in `file` with `backend` set to `mode`: it is them,
/// written out, and looks like them when it is read again.
pub open spec fn is_switched_file(new: Seq<u8>, file: Option<Seq<u8>>, mode: Seq<char>) -> bool {
    exists|v: Value| #[trigger]
        is_switched(v, file, mode) && new == pretty(v).push(10u8) && holds(new, v)
}

/// The settings in `file` with `mode` switched to, as the file to write, or why it is refused. The
/// other settings stay as they are. What was written sets the mode when it is read again.
pub fn save(file: Option<&[u8]>, mode: &str, has_key: bool) -> (r: Result<Vec<u8>, SaveError>)
    ensures
        match refusal(contents(file), mode@, has_key) {
            Some(e) => r == Err::<Vec<u8>, SaveError>(e),
            None => r is Ok,
        },
        r matches Ok(b) ==> is_switched_file(b@, contents(file), mode@) && mode_in(Some(b@)) == Some(
            mode@,
        ),
{
    if !known_mode(mode) {
        return Err(SaveError::UnknownMode);
    }
    if same(mode, "groq") && !has_key {
        return Err(SaveError::NoKey);
    }
    let mut value = match file {
        Some(bytes) => match read(bytes) {
            Some(v) => v,
            None => {
                return Err(SaveError::Broken);
            },
        },
        None => empty_object(),
    };
    if !is_object(&value) {
        return Err(SaveError::NotAnObject);
    }
    put_text(&mut value, "backend", mode);
    assert(is_switched(value, contents(file), mode@));
    match write_pretty(&value) {
        Ok(mut out) => {
            let ghost text = out@;
            out.push(10u8);
            proof {
                assert(holds(out@, value));
                lemma_members_alike(value, document(text)->0, "backend"@);
            }
            Ok(out)
        },
        Err(_) => Err(SaveError::NotSaved),
    }
}

/// Whether the file that is there after a switch to `mode` sets it.
pub fn confirm(file: Option<&[u8]>, mode: &str) -> (r: Result<(), SaveError>)
    ensures
        r == if mode@ == (match mode_in(contents(file)) {
            Some(m) => m,
            None => Seq::<char>::empty(),
        }) {
            Ok::<(), SaveError>(())
        } else {
            Err(SaveError::NotSaved)
        },
{
    proof {
        reveal_strlit("");
        assert(""@ =~= Seq::<char>::empty());
    }
    let now = current(file, "");
    if same(now.as_str(), mode) {
        Ok(())
    } else {
        Err(SaveError::NotSaved)
    }
}

/// What a command does to the settings file: the file to write for a switch, nothing for a
/// question, or why the switch is refused.
pub fn execute(command: Command, file: Option<&[u8]>, has_key: bool) -> (r: Result<
    Option<Vec<u8>>,
    SaveError,
>)
    ensures
        command is Status ==> r == Ok::<Option<Vec<u8>>, SaveError>(None),
        command matches Command::Switch(mode) ==> match refusal(contents(file), mode@, has_key) {
            Some(e) => r == Err::<Option<Vec<u8>>, SaveError>(e),
            None => r matches Ok(Some(b)) && is_switched_file(b@, contents(file), mode@) && mode_in(
                Some(b@),
            ) == Some(mode@),
        },
{
    match command {
        Command::Status => Ok(None),
        Command::Switch(mode) => match save(file, mode, has_key) {
            Ok(b) => Ok(Some(b)),
            Err(e) => Err(e),
        },
    }
}

/// Switching keeps every setting but the mode: each member of the old settings other than
/// `backend` is a member of the new ones, unchanged, and none is added.
pub proof fn law_switch_keeps_other_settings(
    v: Value,
    file: Option<Seq<u8>>,
    mode: Seq<char>,
    key: Seq<char>,
)
    requires
        is_switched(v, file, mode),
        key != "backend"@,
    ensures
        members(v)->0.dom().contains(key) <==> settings_in(file).dom().contains(key),
        settings_in(file).dom().contains(key) ==> members(v)->0[key] == settings_in(file)[key],
{
}

/// A switch is there when the file is read again: the file sets the new mode, has no setting that
/// the old one had not but the mode, and each other setting looks as it did.
pub proof fn law_switch_is_read_back(
    new: Seq<u8>,
    file: Option<Seq<u8>>,
    mode: Seq<char>,
    key: Seq<char>,
)
    requires
        is_mode(mode),
        is_switched_file(new, file, mode),
        key != "backend"@,
    ensures
        mode_in(Some(new)) == Some(mode),
        settings_in(Some(new)).dom().contains(key) <==> settings_in(file).dom().contains(key),
        settings_in(file).dom().contains(key) ==> reads_alike(
            settings_in(file)[key],
            settings_in(Some(new))[key],
        ),
        refusal(Some(new), mode, true) is None,
{
    let v = choose|v: Value| #[trigger]
        is_switched(v, file, mode) && new == pretty(v).push(10u8) && holds(new, v);
    lemma_members_alike(v, document(new)->0, key);
    lemma_members_alike(v, document(new)->0, "backend"@);
}

// ---------------------------------------------------------------------------------------------
// Feedback
// ---------------------------------------------------------------------------------------------

/// A desktop notification.
pub struct Notice {
    pub title: &'static str,
    pub detail: &'static str,
}

/// The notification for the mode `mode`, which was switched to or only asked for.
pub fn notify(mode: &str, switched: bool) -> (r: Notice)
    ensures
        r.detail@ == if mode@ == "auto"@ {
            "自動模式：先用本機，本機失敗才使用 Groq。"@
        } else if mode@ == "groq"@ {
            "Groq 雲端模式：使用 Groq 辨識，需要網路。"@
        } else if mode@ == "local"@ {
            "本機模式：使用這台電腦辨識。"@
        } else {
            "切換失敗，仍維持原本模式。請查看 mori-ear 錯誤紀錄。"@
        },
        r.title@ == if mode@ == "error"@ {
            "Mori：模式未切換"@
        } else if switched {
            "Mori：模式已切換"@
        } else {
            "Mori：目前辨識模式"@
        },
{
    let detail = if same(mode, "auto") {
        "自動模式：先用本機，本機失敗才使用 Groq。"
    } else if same(mode, "groq") {
        "Groq 雲端模式：使用 Groq 辨識，需要網路。"
    } else if same(mode, "local") {
        "本機模式：使用這台電腦辨識。"
    } else {
        "切換失敗，仍維持原本模式。請查看 mori-ear 錯誤紀錄。"
    };
    let title = if same(mode, "error") {
        "Mori：模式未切換"
    } else if switched {
        "Mori：模式已切換"
    } else {
        "Mori：目前辨識模式"
    };
    Notice { title, detail }
}

// ---------------------------------------------------------------------------------------------
// What commands can and cannot be
// ---------------------------------------------------------------------------------------------

/// Whether `p` is empty or one of `list`.
pub open spec fn optional(p: Seq<char>, list: Seq<Seq<char>>) -> bool {
    p.len() == 0 || list.contains(p)
}

/// The parts of an order to switch, in the order in which they are said.
pub struct Order {
    pub greeting: Seq<char>,
    pub name: Seq<char>,
    pub courtesy: Seq<char>,
    pub help: Seq<char>,
    pub verb: Seq<char>,
    pub word: Seq<char>,
    pub mode_word: Seq<char>,
    pub particle: Seq<char>,
}

/// Whether `o` is an order to switch to `mode`.
pub open spec fn is_order(o: Order, mode: Seq<char>) -> bool {
    &&& optional(o.greeting, greetings())
    &&& names().contains(o.name)
    &&& optional(o.courtesy, courtesies())
    &&& optional(o.help, helps())
    &&& verbs().contains(o.verb)
    &&& mode_for(o.word) == Some(mode)
    &&& optional(o.mode_word, mode_words())
    &&& optional(o.particle, particles())
}

/// The characters of an order.
pub open spec fn said(o: Order) -> Seq<char> {
    o.greeting + o.name + o.courtesy + o.help + o.verb + o.word + o.mode_word + o.particle
}

proof fn lemma_after_prefix(s: Seq<char>, list: Seq<Seq<char>>) -> (p: Seq<char>)
    requires
        after_prefix(s, list) is Some,
    ensures
        list.contains(p),
        s == p + after_prefix(s, list)->0,
    decreases list.len(),
{
    if starts_with(s, list[0]) {
        let p = list[0];
        assert(s =~= p + s.skip(p.len() as int));
        p
    } else {
        let tail = list.drop_first();
        let p = lemma_after_prefix(s, tail);
        let i = choose|i: int| 0 <= i < tail.len() && tail[i] == p;
        assert(list[i + 1] == p);
        p
    }
}

proof fn lemma_before_suffix(s: Seq<char>, list: Seq<Seq<char>>) -> (p: Seq<char>)
    requires
        before_suffix(s, list) is Some,
    ensures
        list.contains(p),
        s == before_suffix(s, list)->0 + p,
    decreases list.len(),
{
    if ends_with(s, list[0]) {
        let p = list[0];
        assert(s =~= s.take(s.len() - p.len()) + p);
        p
    } else {
        let tail = list.drop_first();
        let p = lemma_before_suffix(s, tail);
        let i = choose|i: int| 0 <= i < tail.len() && tail[i] == p;
        assert(list[i + 1] == p);
        p
    }
}

pub proof fn lemma_without_prefix(s: Seq<char>, list: Seq<Seq<char>>) -> (p: Seq<char>)
    ensures
        optional(p, list),
        s == p + without_prefix(s, list),
{
    if after_prefix(s, list) is Some {
        lemma_after_prefix(s, list)
    } else {
        let p = Seq::<char>::empty();
        assert(s =~= p + s);
        p
    }
}

pub proof fn lemma_without_suffix(s: Seq<char>, list: Seq<Seq<char>>) -> (p: Seq<char>)
    ensures
        optional(p, list),
        s == without_suffix(s, list) + p,
{
    if before_suffix(s, list) is Some {
        lemma_before_suffix(s, list)
    } else {
        let p = Seq::<char>::empty();
        assert(s =~= s + p);
        p
    }
}

pub proof fn lemma_longest_prefix(s: Seq<char>, list: Seq<Seq<char>>) -> (p: Seq<char>)
    requires
        longest_prefix(s, list) > 0,
    ensures
        list.contains(p),
        p.len() == longest_prefix(s, list),
        s == p + s.skip(longest_prefix(s, list) as int),
    decreases list.len(),
{
    let shorter = list.drop_last();
    let name = list.last();
    if starts_with(s, name) && name.len() > longest_prefix(s, shorter) {
        assert(list[list.len() - 1] == name);
        assert(s =~= name + s.skip(name.len() as int));
        name
    } else {
        let p = lemma_longest_prefix(s, shorter);
        let i = choose|i: int| 0 <= i < shorter.len() && shorter[i] == p;
        assert(list[i] == p);
        p
    }
}

/// Putting the parts of an order together again.
proof fn lemma_said(
    o: Order,
    s: Seq<char>,
    a: Seq<char>,
    b: Seq<char>,
    c: Seq<char>,
    d: Seq<char>,
    e: Seq<char>,
    f: Seq<char>,
)
    requires
        s == o.greeting + a,
        a == o.name + b,
        b == o.courtesy + c,
        c == d + o.particle,
        d == o.help + e,
        e == o.verb + f,
        f == o.word + o.mode_word,
    ensures
        said(o) == s,
{
    let head = o.greeting + o.name + o.courtesy;
    assert(head + c =~= s);
    assert(o.help + o.verb + o.word + o.mode_word =~= d);
    let tail = o.help + o.verb + o.word + o.mode_word;
    assert(head + o.help + o.verb + o.word + o.mode_word =~= head + tail);
    assert(head + tail + o.particle =~= head + (tail + o.particle));
}

/// Only an utterance that is an order from its first to its last character switches the mode: a
/// name, then optionally a courtesy and a plea, a verb, a word for the mode, optionally "mode" and
/// a particle. Words before the name, around the order or after it make it no command.
pub proof fn law_switch_is_a_whole_addressed_order(s: Seq<char>, mode: Seq<char>)
    requires
        command_in(s) == Some(Meaning::Switch(mode)),
    ensures
        is_addressed(s),
        exists|o: Order| is_order(o, mode) && said(o) == s,
{
    let greeting = lemma_without_prefix(s, greetings());
    let a = without_prefix(s, greetings());
    let name = lemma_longest_prefix(a, names());
    let b = a.skip(longest_prefix(a, names()) as int);
    let courtesy = lemma_without_prefix(b, courtesies());
    let c = without_prefix(b, courtesies());
    let particle = lemma_without_suffix(c, particles());
    let d = without_suffix(c, particles());
    let help = lemma_without_prefix(d, helps());
    let e = without_prefix(d, helps());
    let verb = lemma_after_prefix(e, verbs());
    let f = after_prefix(e, verbs())->0;
    let mode_word = lemma_without_suffix(f, mode_words());
    let word = without_suffix(f, mode_words());
    let o = Order { greeting, name, courtesy, help, verb, word, mode_word, particle };
    lemma_said(o, s, a, b, c, d, e, f);
    assert(is_order(o, mode));
}

/// A command never selects anything but one of the three modes.
pub proof fn law_switch_selects_a_known_mode(s: Seq<char>, mode: Seq<char>)
    requires
        command_in(s) == Some(Meaning::Switch(mode)),
    ensures
        mode == "auto"@ || mode == "groq"@ || mode == "local"@,
{
}

/// An utterance that calls no name can at most ask for the mode.
pub proof fn law_unaddressed_is_read_only(s: Seq<char>)
    requires
        !is_addressed(s),
    ensures
        command_in(s) is None || command_in(s) == Some(Meaning::Status),
{
}

/// Of two names that begin alike, the longer one is heard: no name is left in front of what the
/// utterance asks for.
pub proof fn law_longest_name_is_heard(s: Seq<char>, list: Seq<Seq<char>>, name: Seq<char>)
    requires
        list.contains(name),
        starts_with(s, name),
    ensures
        longest_prefix(s, list) >= name.len(),
    decreases list.len(),
{
    let i = choose|i: int| 0 <= i < list.len() && list[i] == name;
    if i < list.len() - 1 {
        let shorter = list.drop_last();
        assert(shorter[i] == name);
        law_longest_name_is_heard(s, shorter, name);
    }
}

/// The text without its white space and punctuation.
pub open spec fn stripped(s: Seq<char>) -> Seq<char>
    decreases s.len(),
{
    if s.len() == 0 {
        seq![]
    } else if is_space(s.last()) || is_punctuation(s.last()) {
        stripped(s.drop_last())
    } else {
        stripped(s.drop_last()).push(s.last())
    }
}

/// The text with its ASCII letters in upper case.
pub open spec fn ascii_uppered(s: Seq<char>) -> Seq<char> {
    s.map_values(
        |c: char|
            if 'a' <= c <= 'z' {
                (c as u32 - 32) as char
            } else {
                c
            },
    )
}

/// White space and punctuation make no difference to what was said, wherever and however often they
/// stand.
pub proof fn law_spacing_and_punctuation_are_ignored(s: Seq<char>)
    ensures
        spoken(stripped(s)) == spoken(s),
    decreases s.len(),
{
    if s.len() > 0 {
        law_spacing_and_punctuation_are_ignored(s.drop_last());
        if !(is_space(s.last()) || is_punctuation(s.last())) {
            assert(stripped(s).drop_last() =~= stripped(s.drop_last()));
        }
    }
}

/// What is said in two pieces is what is said in them, one after the other.
pub proof fn lemma_spoken_add(a: Seq<char>, b: Seq<char>)
    ensures
        spoken(a + b) == spoken(a) + spoken(b),
    decreases b.len(),
{
    if b.len() == 0 {
        assert(a + b =~= a);
        assert(spoken(a) + spoken(b) =~= spoken(a));
    } else {
        lemma_spoken_add(a, b.drop_last());
        assert((a + b).drop_last() =~= a + b.drop_last());
        let x = spoken(a);
        let y = spoken(b.drop_last());
        if !(is_space(b.last()) || is_punctuation(b.last())) {
            let c = traditional(b.last());
            assert((x + y).push(c) =~= x + y.push(c));
        }
    }
}

/// White space and punctuation stay so in lower case, and nothing is said by them.
proof fn lemma_nothing_said(c: char)
    requires
        is_space(c) || is_punctuation(c),
    ensures
        spoken(lower_of(c)) == Seq::<char>::empty(),
{
    assert(is_plain(c));
    assert(lower_of(c) =~= seq![c]);
    assert(lower_of(c).drop_last() =~= seq![]);
    reveal_with_fuel(spoken, 2);
}

proof fn lemma_stripped_says_the_same(text: Seq<char>)
    ensures
        spoken(lowered(stripped(text))) == spoken(lowered(text)),
    decreases text.len(),
{
    if text.len() > 0 {
        let rest = text.drop_last();
        let c = text.last();
        lemma_stripped_says_the_same(rest);
        lemma_spoken_add(lowered(rest), lower_of(c));
        if is_space(c) || is_punctuation(c) {
            lemma_nothing_said(c);
            assert(spoken(lowered(rest)) + Seq::<char>::empty() =~= spoken(lowered(rest)));
        } else {
            assert(stripped(text).drop_last() =~= stripped(rest));
            lemma_spoken_add(lowered(stripped(rest)), lower_of(c));
        }
    }
}

proof fn lemma_capitals_say_the_same(text: Seq<char>)
    ensures
        lowered(ascii_uppered(text)) == lowered(text),
    decreases text.len(),
{
    if text.len() > 0 {
        let rest = text.drop_last();
        lemma_capitals_say_the_same(rest);
        assert(ascii_uppered(text).drop_last() =~= ascii_uppered(rest));
        let c = text.last();
        let u = ascii_uppered(text).last();
        if 'a' <= c <= 'z' {
            assert(lower_of(u) =~= lower_of(c));
        } else {
            assert(u == c);
        }
    } else {
        assert(ascii_uppered(text) =~= seq![]);
    }
}

/// An utterance without its white space and punctuation is the same command, and so is one in
/// capitals.
pub proof fn law_spacing_punctuation_and_capitals_are_ignored(text: Seq<char>)
    ensures
        command_of(stripped(text)) == command_of(text),
        command_of(ascii_uppered(text)) == command_of(text),
{
    lemma_stripped_says_the_same(text);
    lemma_capitals_say_the_same(text);
}

// ---------------------------------------------------------------------------------------------
// What settings and characters come to
// ---------------------------------------------------------------------------------------------

/// The punctuation that is passed over, and none else.
pub proof fn law_punctuation(c: char)
    ensures
        is_punctuation(c) <==> ",，。.!！?？:："@.contains(c),
{
    reveal_strlit(",，。.!！?？:：");
    let s = ",，。.!！?？:："@;
    assert(s.len() == 10);
    assert(s[0] == ',' && s[1] == '，' && s[2] == '。' && s[3] == '.' && s[4] == '!' && s[5] == '！'
        && s[6] == '?' && s[7] == '？' && s[8] == ':' && s[9] == '：');
}

/// Simplified characters are taken for the traditional ones, one by one, and all others for
/// themselves.
pub proof fn law_simplified_characters(c: char, i: int)
    ensures
        0 <= i < 8 ==> traditional("现换么帮个线离请"@[i]) == "現換麼幫個線離請"@[i],
        !"现换么帮个线离请"@.contains(c) ==> traditional(c) == c,
        traditional(traditional(c)) == traditional(c),
{
    reveal_strlit("现换么帮个线离请");
    reveal_strlit("現換麼幫個線離請");
    let s = "现换么帮个线离请"@;
    let t = "現換麼幫個線離請"@;
    assert(s.len() == 8);
    assert(s[0] == '现' && s[1] == '换' && s[2] == '么' && s[3] == '帮' && s[4] == '个' && s[5] == '线'
        && s[6] == '离' && s[7] == '请');
    assert(t[0] == '現' && t[1] == '換' && t[2] == '麼' && t[3] == '幫' && t[4] == '個' && t[5] == '線'
        && t[6] == '離' && t[7] == '請');
    if 0 <= i < 8 {
        assert(i == 0 || i == 1 || i == 2 || i == 3 || i == 4 || i == 5 || i == 6 || i == 7);
    }
}

/// What is said is said character by character: one that is white space or punctuation says nothing,
/// and any other itself, in its traditional form.
pub proof fn law_said_character_by_character(a: Seq<char>, b: Seq<char>, c: char)
    ensures
        spoken(a + b) == spoken(a) + spoken(b),
        is_space(c) || is_punctuation(c) ==> spoken(seq![c]) == Seq::<char>::empty(),
        !is_space(c) && !is_punctuation(c) ==> spoken(seq![c]) == seq![traditional(c)],
{
    lemma_spoken_add(a, b);
    assert(seq![c].drop_last() =~= Seq::<char>::empty());
    assert(spoken(Seq::<char>::empty()) =~= Seq::<char>::empty());
    assert(spoken(seq![c]) =~= if is_space(c) || is_punctuation(c) {
        Seq::<char>::empty()
    } else {
        seq![traditional(c)]
    });
}

/// Each kind of feedback is switched by its own setting and by no other: what the settings say of
/// one is what it is, and it is on where they do not name it.
pub proof fn law_each_setting_is_its_own(file: &[u8], doc: Value, v: Value, r: Settings)
    requires
        call_ensures(settings, (Some(file),), r),
        document(file@) == Some(doc),
        member(doc, "mode_commands"@) == Some(v),
        members(v) is Some,
        flag_known(v, "enabled"@) && flag_known(v, "sound"@) && flag_known(v, "notification"@),
    ensures
        !r.enabled <==> is_off(v, "enabled"@),
        !r.sound <==> is_off(v, "sound"@),
        !r.notification <==> is_off(v, "notification"@),
{
}

/// Whether the member is missing, or `true` or `false`.
pub open spec fn flag_known(v: Value, key: Seq<char>) -> bool {
    member(v, key) matches Some(w) ==> flag_in(w) is Some
}

/// Whether the member is `false`.
pub open spec fn is_off(v: Value, key: Seq<char>) -> bool {
    member(v, key) matches Some(w) && flag_in(w) == Some(false)
}

/// In a list the settings stand in the order in which they are named; those that are left out are
/// on.
pub proof fn law_listed_settings(file: &[u8], doc: Value, v: Value, list: Seq<Value>, r: Settings)
    requires
        call_ensures(settings, (Some(file),), r),
        document(file@) == Some(doc),
        member(doc, "mode_commands"@) == Some(v),
        members(v) is None,
        items(v) == Some(list),
        list.len() <= 3,
        forall|i: int| 0 <= i < list.len() ==> flag_in(#[trigger] list[i]) is Some,
    ensures
        !r.enabled <==> list.len() > 0 && flag_in(list[0]) == Some(false),
        !r.sound <==> list.len() > 1 && flag_in(list[1]) == Some(false),
        !r.notification <==> list.len() > 2 && flag_in(list[2]) == Some(false),
{
    if list.len() > 0 {
        assert(flag_in(list[0]) is Some);
    }
    if list.len() > 1 {
        assert(flag_in(list[1]) is Some);
    }
    if list.len() > 2 {
        assert(flag_in(list[2]) is Some);
    }
}

/// Settings that cannot be read, or that are not there, leave everything on.
pub proof fn law_broken_settings_leave_everything_on(file: Option<&[u8]>, r: Settings)
    requires
        call_ensures(settings, (file,), r),
        file matches Some(b) ==> (document(b@) matches Some(doc) ==> member(
            doc,
            "mode_commands"@,
        ) is None),
    ensures
        r.enabled && r.sound && r.notification,
{
}

/// The mode is the one that the settings file names, if it is one of the three; else what it was.
pub proof fn law_mode_is_read(file: &[u8], fallback: &str, r: String, doc: Value)
    requires
        call_ensures(current, (Some(file), fallback), r),
        document(file@) == Some(doc),
    ensures
        member_text(doc, "backend"@) == Some("auto"@) ==> r@ == "auto"@,
        member_text(doc, "backend"@) == Some("groq"@) ==> r@ == "groq"@,
        member_text(doc, "backend"@) == Some("local"@) ==> r@ == "local"@,
        r@ == fallback@ || Some(r@) == member_text(doc, "backend"@),
        member_text(doc, "backend"@) is None ==> r@ == fallback@,
        r@ == fallback@ || r@ == "auto"@ || r@ == "groq"@ || r@ == "local"@,
{
}

/// A switch is refused for one reason: there is no such mode, it takes a key that is not there, or
/// the settings cannot be read. Only Groq takes a key, so with or without one every other switch
/// comes to the same; and a switch that is not refused is made.
pub proof fn law_switch_is_refused_for_a_reason(
    file: Option<&[u8]>,
    mode: &str,
    has_key: bool,
    r: Result<Vec<u8>, SaveError>,
)
    requires
        call_ensures(save, (file, mode, has_key), r),
    ensures
        mode@ != "auto"@ && mode@ != "groq"@ && mode@ != "local"@ <==> r == Err::<
            Vec<u8>,
            SaveError,
        >(SaveError::UnknownMode),
        mode@ == "groq"@ && !has_key <==> r == Err::<Vec<u8>, SaveError>(SaveError::NoKey),
        (mode@ == "auto"@ || mode@ == "local"@ || (mode@ == "groq"@ && has_key)) && file is None
            ==> r is Ok,
        (mode@ == "auto"@ || mode@ == "local"@ || (mode@ == "groq"@ && has_key)) ==> (
        file matches Some(b) ==> match document(b@) {
            None => r == Err::<Vec<u8>, SaveError>(SaveError::Broken),
            Some(doc) => if members(doc) is None {
                r == Err::<Vec<u8>, SaveError>(SaveError::NotAnObject)
            } else {
                r is Ok
            },
        }),
{
    reveal_strlit("auto");
    reveal_strlit("groq");
    reveal_strlit("local");
    assert("auto"@[0] == 'a' && "groq"@[0] == 'g' && "local"@[0] == 'l');
}

/// A command does what it says and no more: a question changes nothing, and a switch writes what
/// saving its mode writes.
pub proof fn law_command_is_carried_out(
    mode: &'static str,
    file: Option<&[u8]>,
    has_key: bool,
    r: Result<Option<Vec<u8>>, SaveError>,
    s: Result<Vec<u8>, SaveError>,
    q: Result<Option<Vec<u8>>, SaveError>,
    back: String,
    new: &[u8],
    fallback: &str,
)
    requires
        call_ensures(execute, (Command::Switch(mode), file, has_key), r),
        call_ensures(execute, (Command::Status, file, has_key), q),
        call_ensures(save, (file, mode, has_key), s),
        call_ensures(current, (Some(new), fallback), back),
    ensures
        q == Ok::<Option<Vec<u8>>, SaveError>(None),
        r is Ok <==> s is Ok,
        r matches Err(e) ==> s == Err::<Vec<u8>, SaveError>(e),
        r matches Ok(w) ==> w is Some,
        r matches Ok(Some(w)) ==> w@ == new@ ==> back@ == mode@,
{
}

/// What the user is told of a mode names that mode, and a failure is not called a switch.
pub proof fn law_notice_tells_the_mode(mode: &str, switched: bool, r: Notice)
    requires
        call_ensures(notify, (mode, switched), r),
    ensures
        mode@ == "auto"@ <==> starts_with(r.detail@, "自動模式"@),
        mode@ == "groq"@ <==> starts_with(r.detail@, "Groq 雲端模式"@),
        mode@ == "local"@ <==> starts_with(r.detail@, "本機模式"@),
        mode@ != "error"@ ==> (switched <==> r.title@ == "Mori：模式已切換"@),
        mode@ == "error"@ ==> r.title@ == "Mori：模式未切換"@,
{
    reveal_strlit("auto");
    reveal_strlit("groq");
    reveal_strlit("local");
    assert("auto"@[0] == 'a' && "groq"@[0] == 'g' && "local"@[0] == 'l');
    reveal_strlit("自動模式");
    reveal_strlit("Groq 雲端模式");
    reveal_strlit("本機模式");
    reveal_strlit("自動模式：先用本機，本機失敗才使用 Groq。");
    reveal_strlit("Groq 雲端模式：使用 Groq 辨識，需要網路。");
    reveal_strlit("本機模式：使用這台電腦辨識。");
    reveal_strlit("切換失敗，仍維持原本模式。請查看 mori-ear 錯誤紀錄。");
    reveal_strlit("Mori：模式已切換");
    reveal_strlit("Mori：目前辨識模式");
    reveal_strlit("Mori：模式未切換");
    assert("Mori：模式已切換"@[5] == '模' && "Mori：目前辨識模式"@[5] == '目');
    let d = r.detail@;
    if mode@ == "auto"@ {
        assert(d.take(4) =~= "自動模式"@);
        assert(d[0] == '自');
    } else if mode@ == "groq"@ {
        assert(d.take("Groq 雲端模式"@.len() as int) =~= "Groq 雲端模式"@);
        assert(d[0] == 'G');
    } else if mode@ == "local"@ {
        assert(d.take(4) =~= "本機模式"@);
        assert(d[0] == '本');
    } else {
        assert(d[0] == '切');
    }
    assert(d.take(4)[0] == d[0]);
    assert(d.take("Groq 雲端模式"@.len() as int)[0] == d[0]);
    assert("自動模式"@[0] == '自' && "Groq 雲端模式"@[0] == 'G' && "本機模式"@[0] == '本');
}

/// The three modes are known, and no other.
pub proof fn law_three_modes_are_known(mode: &str, r: bool)
    requires
        call_ensures(known_mode, (mode,), r),
    ensures
        r <==> mode@ == "auto"@ || mode@ == "groq"@ || mode@ == "local"@,
{
}

/// A switch is confirmed exactly where the file that is there sets that mode.
pub proof fn law_switch_is_confirmed(
    file: Option<&[u8]>,
    mode: &str,
    fallback: &str,
    r: Result<(), SaveError>,
    now: String,
)
    requires
        call_ensures(confirm, (file, mode), r),
        call_ensures(current, (file, fallback), now),
        mode@.len() > 0,
    ensures
        r is Ok ==> now@ == mode@,
        r is Err ==> r == Err::<(), SaveError>(SaveError::NotSaved),
        fallback@ != mode@ ==> (r is Ok <==> now@ == mode@),
{
}

} // verus!
