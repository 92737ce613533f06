//! A command is a whole utterance: with words before it, round it or after it, it is dictation.
use crate::mode_command::{
    after_prefix, auto_words, command_in, command_of, courtesies, greetings, groq_words, helps,
    is_punctuation, law_longest_name_is_heard, lemma_spoken_add, local_words, longest_prefix, mode_words, names,
    particles, pronouns, questions, request_in, spoken, traditional, verbs, without_prefix, without_suffix,
};
use crate::text::{
    ascii_lowered, ends_with, is_plain_text, is_space, lemma_lowered_add, lemma_lowered_plain, lowered,
    starts_with,
};
use vstd::prelude::*;

verus! {

/// Whether none of the words begins with `c`.
pub open spec fn none_begins(list: Seq<Seq<char>>, c: char) -> bool {
    forall|i: int| 0 <= i < list.len() ==> (#[trigger] list[i]).len() > 0 && list[i][0] != c
}

/// Whether none of the words ends with `c`.
pub open spec fn none_ends(list: Seq<Seq<char>>, c: char) -> bool {
    forall|i: int| 0 <= i < list.len() ==> (#[trigger] list[i]).len() > 0 && list[i].last() != c
}

/// Whether nothing that a command asks for begins with `c`.
pub open spec fn opens_no_request(c: char) -> bool {
    &&& none_begins(courtesies(), c)
    &&& none_begins(particles(), c)
    &&& none_begins(pronouns(), c)
    &&& none_begins(questions(), c)
    &&& none_begins(helps(), c)
    &&& none_begins(verbs(), c)
}

/// Whether no command begins with `c`.
pub open spec fn opens_nothing(c: char) -> bool {
    &&& none_begins(greetings(), c)
    &&& none_begins(names(), c)
    &&& opens_no_request(c)
}

/// Whether nothing in a command ends with `c`.
pub open spec fn closes_nothing(c: char) -> bool {
    &&& none_ends(greetings(), c)
    &&& none_ends(names(), c)
    &&& none_ends(courtesies(), c)
    &&& none_ends(particles(), c)
    &&& none_ends(pronouns(), c)
    &&& none_ends(questions(), c)
    &&& none_ends(helps(), c)
    &&& none_ends(verbs(), c)
    &&& none_ends(mode_words(), c)
    &&& none_ends(auto_words(), c)
    &&& none_ends(groq_words(), c)
    &&& none_ends(local_words(), c)
}

// ---------------------------------------------------------------------------------------------
// Words before
// ---------------------------------------------------------------------------------------------

pub proof fn lemma_no_prefix(s: Seq<char>, list: Seq<Seq<char>>)
    requires
        s.len() > 0,
        none_begins(list, s[0]),
    ensures
        after_prefix(s, list) is None,
        without_prefix(s, list) == s,
    decreases list.len(),
{
    if list.len() > 0 {
        let w = list[0];
        if starts_with(s, w) {
            assert(s.take(w.len() as int)[0] == s[0]);
        }
        let rest = list.drop_first();
        assert forall|i: int| 0 <= i < rest.len() implies (#[trigger] rest[i]).len() > 0
            && rest[i][0] != s[0] by {
            assert(rest[i] == list[i + 1]);
        }
        lemma_no_prefix(s, rest);
    }
}

proof fn lemma_no_name(s: Seq<char>, list: Seq<Seq<char>>)
    requires
        s.len() > 0,
        none_begins(list, s[0]),
    ensures
        longest_prefix(s, list) == 0,
    decreases list.len(),
{
    if list.len() > 0 {
        let w = list[list.len() - 1];
        if starts_with(s, w) {
            assert(s.take(w.len() as int)[0] == s[0]);
        }
        let rest = list.drop_last();
        assert forall|i: int| 0 <= i < rest.len() implies (#[trigger] rest[i]).len() > 0
            && rest[i][0] != s[0] by {
            assert(rest[i] == list[i]);
        }
        lemma_no_name(s, rest);
    }
}

/// What is left without a closing word begins as before, where no such word begins so.
proof fn lemma_suffix_keeps_first(s: Seq<char>, list: Seq<Seq<char>>)
    requires
        s.len() > 0,
        none_begins(list, s[0]),
    ensures
        without_suffix(s, list).len() > 0,
        without_suffix(s, list)[0] == s[0],
    decreases list.len(),
{
    if list.len() > 0 {
        let w = list[0];
        if ends_with(s, w) {
            if w.len() == s.len() {
                assert(s.skip(0) =~= s);
                assert(w[0] == s[0]);
            }
        } else {
            let rest = list.drop_first();
            assert forall|i: int| 0 <= i < rest.len() implies (#[trigger] rest[i]).len() > 0
                && rest[i][0] != s[0] by {
                assert(rest[i] == list[i + 1]);
            }
            lemma_suffix_keeps_first(s, rest);
        }
    }
}

/// What follows the name asks for nothing, where no request begins so.
proof fn lemma_no_request(x: Seq<char>)
    requires
        x.len() > 0,
        opens_no_request(x[0]),
    ensures
        ({
            let request = without_suffix(without_prefix(x, courtesies()), particles());
            &&& !questions().contains(without_prefix(request, pronouns()))
            &&& after_prefix(without_prefix(request, helps()), verbs()) is None
        }),
{
    lemma_no_prefix(x, courtesies());
    lemma_suffix_keeps_first(x, particles());
    let request = without_suffix(x, particles());
    lemma_no_prefix(request, pronouns());
    if questions().contains(request) {
        let i = choose|i: int| 0 <= i < questions().len() && questions()[i] == request;
        assert(questions()[i][0] == request[0]);
    }
    lemma_no_prefix(request, helps());
    lemma_no_prefix(request, verbs());
}

/// Words before a command make it none, where no command begins as they do.
pub proof fn law_words_before_make_dictation(before: Seq<char>, s: Seq<char>)
    requires
        before.len() > 0,
        opens_nothing(before[0]),
    ensures
        command_in(before + s) is None,
{
    let all = before + s;
    assert(all[0] == before[0]);
    lemma_no_prefix(all, greetings());
    lemma_no_name(all, names());
    assert(all.skip(0) =~= all);
    lemma_no_request(all);
}

// ---------------------------------------------------------------------------------------------
// Words after
// ---------------------------------------------------------------------------------------------

proof fn lemma_prefix_keeps_last(s: Seq<char>, list: Seq<Seq<char>>)
    requires
        s.len() > 0,
        none_ends(list, s.last()),
    ensures
        after_prefix(s, list) matches Some(t) ==> t.len() > 0 && t.last() == s.last(),
        without_prefix(s, list).len() > 0,
        without_prefix(s, list).last() == s.last(),
    decreases list.len(),
{
    if list.len() > 0 {
        let w = list[0];
        if starts_with(s, w) {
            if w.len() == s.len() {
                assert(s.take(s.len() as int) =~= s);
                assert(w.last() == s.last());
            }
        } else {
            let rest = list.drop_first();
            assert forall|i: int| 0 <= i < rest.len() implies (#[trigger] rest[i]).len() > 0
                && rest[i].last() != s.last() by {
                assert(rest[i] == list[i + 1]);
            }
            lemma_prefix_keeps_last(s, rest);
        }
    }
}

proof fn lemma_name_keeps_last(s: Seq<char>, list: Seq<Seq<char>>)
    requires
        s.len() > 0,
        none_ends(list, s.last()),
    ensures
        longest_prefix(s, list) < s.len(),
    decreases list.len(),
{
    if list.len() > 0 {
        let w = list[list.len() - 1];
        if starts_with(s, w) && w.len() == s.len() {
            assert(s.take(s.len() as int) =~= s);
            assert(w.last() == s.last());
        }
        let rest = list.drop_last();
        assert forall|i: int| 0 <= i < rest.len() implies (#[trigger] rest[i]).len() > 0
            && rest[i].last() != s.last() by {
            assert(rest[i] == list[i]);
        }
        lemma_name_keeps_last(s, rest);
    }
}

pub proof fn lemma_no_suffix(s: Seq<char>, list: Seq<Seq<char>>)
    requires
        s.len() > 0,
        none_ends(list, s.last()),
    ensures
        without_suffix(s, list) == s,
    decreases list.len(),
{
    if list.len() > 0 {
        let w = list[0];
        if ends_with(s, w) {
            assert(s.skip(s.len() - w.len()).last() == s.last());
        }
        let rest = list.drop_first();
        assert forall|i: int| 0 <= i < rest.len() implies (#[trigger] rest[i]).len() > 0
            && rest[i].last() != s.last() by {
            assert(rest[i] == list[i + 1]);
        }
        lemma_no_suffix(s, rest);
    }
}

proof fn lemma_not_a_word(s: Seq<char>, list: Seq<Seq<char>>)
    requires
        s.len() > 0,
        none_ends(list, s.last()),
    ensures
        !list.contains(s),
{
    if list.contains(s) {
        let i = choose|i: int| 0 <= i < list.len() && list[i] == s;
        assert(list[i].last() == s.last());
    }
}

/// Words after a command make it none, where nothing in a command ends as they do.
pub proof fn law_words_after_make_dictation(s: Seq<char>, after: Seq<char>)
    requires
        after.len() > 0,
        closes_nothing(after.last()),
    ensures
        command_in(s + after) is None,
{
    let all = s + after;
    assert(all.last() == after.last());
    lemma_prefix_keeps_last(all, greetings());
    let a = without_prefix(all, greetings());
    lemma_name_keeps_last(a, names());
    let b = a.skip(longest_prefix(a, names()) as int);
    assert(b.last() == all.last());
    lemma_prefix_keeps_last(b, courtesies());
    let c = without_prefix(b, courtesies());
    lemma_no_suffix(c, particles());
    assert(request_in(all) == c);
    lemma_prefix_keeps_last(c, pronouns());
    lemma_not_a_word(without_prefix(c, pronouns()), questions());
    lemma_prefix_keeps_last(c, helps());
    let d = without_prefix(c, helps());
    lemma_prefix_keeps_last(d, verbs());
    if after_prefix(d, verbs()) is Some {
        let e = after_prefix(d, verbs())->0;
        lemma_no_suffix(e, mode_words());
        lemma_not_a_word(e, auto_words());
        lemma_not_a_word(e, groq_words());
        lemma_not_a_word(e, local_words());
    }
}

// ---------------------------------------------------------------------------------------------
// Words that people use
// ---------------------------------------------------------------------------------------------

proof fn lemma_greetings()
    ensures
        none_begins(greetings(), 'm'),
        none_begins(greetings(), '我'),
        none_begins(greetings(), '「'),
        none_ends(greetings(), '信'),
{
    reveal_strlit("hey");
    reveal_strlit("嘿");
    let list = greetings();
    assert forall|i: int| 0 <= i < list.len() implies (#[trigger] list[i]).len() > 0
        && list[i][0] != 'm'
        && list[i][0] != '我'
        && list[i][0] != '「'
        && list[i].last() != '信' by {
        if i == 0 {
            assert(list[i] == "hey"@);
        } else if i == 1 {
            assert(list[i] == "嘿"@);
        }
    }
}

proof fn lemma_names()
    ensures
        none_begins(names(), '我'),
        none_begins(names(), '「'),
        none_ends(names(), '信'),
{
    reveal_strlit("mori");
    reveal_strlit("moris");
    reveal_strlit("morris");
    reveal_strlit("maurice");
    reveal_strlit("morley");
    reveal_strlit("mory");
    reveal_strlit("molly");
    reveal_strlit("morning");
    reveal_strlit("莫莉");
    reveal_strlit("茉莉");
    reveal_strlit("摩利");
    reveal_strlit("摩里");
    reveal_strlit("莫里");
    reveal_strlit("莫里斯");
    reveal_strlit("毛利");
    reveal_strlit("毛蕊");
    reveal_strlit("貓咪");
    reveal_strlit("猫咪");
    reveal_strlit("魔力");
    let list = names();
    assert forall|i: int| 0 <= i < list.len() implies (#[trigger] list[i]).len() > 0
        && list[i][0] != '我'
        && list[i][0] != '「'
        && list[i].last() != '信' by {
        if i == 0 {
            assert(list[i] == "mori"@);
        } else if i == 1 {
            assert(list[i] == "moris"@);
        } else if i == 2 {
            assert(list[i] == "morris"@);
        } else if i == 3 {
            assert(list[i] == "maurice"@);
        } else if i == 4 {
            assert(list[i] == "morley"@);
        } else if i == 5 {
            assert(list[i] == "mory"@);
        } else if i == 6 {
            assert(list[i] == "molly"@);
        } else if i == 7 {
            assert(list[i] == "morning"@);
        } else if i == 8 {
            assert(list[i] == "莫莉"@);
        } else if i == 9 {
            assert(list[i] == "茉莉"@);
        } else if i == 10 {
            assert(list[i] == "摩利"@);
        } else if i == 11 {
            assert(list[i] == "摩里"@);
        } else if i == 12 {
            assert(list[i] == "莫里"@);
        } else if i == 13 {
            assert(list[i] == "莫里斯"@);
        } else if i == 14 {
            assert(list[i] == "毛利"@);
        } else if i == 15 {
            assert(list[i] == "毛蕊"@);
        } else if i == 16 {
            assert(list[i] == "貓咪"@);
        } else if i == 17 {
            assert(list[i] == "猫咪"@);
        } else if i == 18 {
            assert(list[i] == "魔力"@);
        }
    }
}

proof fn lemma_courtesies()
    ensures
        none_begins(courtesies(), '我'),
        none_begins(courtesies(), '「'),
        none_begins(courtesies(), '不'),
        none_ends(courtesies(), '信'),
{
    reveal_strlit("請問");
    reveal_strlit("請");
    let list = courtesies();
    assert forall|i: int| 0 <= i < list.len() implies (#[trigger] list[i]).len() > 0
        && list[i][0] != '我'
        && list[i][0] != '「'
        && list[i][0] != '不'
        && list[i].last() != '信' by {
        if i == 0 {
            assert(list[i] == "請問"@);
        } else if i == 1 {
            assert(list[i] == "請"@);
        }
    }
}

proof fn lemma_particles()
    ensures
        none_begins(particles(), '我'),
        none_begins(particles(), '「'),
        none_begins(particles(), '不'),
        none_ends(particles(), '信'),
{
    reveal_strlit("呢");
    reveal_strlit("啊");
    let list = particles();
    assert forall|i: int| 0 <= i < list.len() implies (#[trigger] list[i]).len() > 0
        && list[i][0] != '我'
        && list[i][0] != '「'
        && list[i][0] != '不'
        && list[i].last() != '信' by {
        if i == 0 {
            assert(list[i] == "呢"@);
        } else if i == 1 {
            assert(list[i] == "啊"@);
        }
    }
}

proof fn lemma_pronouns()
    ensures
        none_begins(pronouns(), '我'),
        none_begins(pronouns(), '「'),
        none_begins(pronouns(), '不'),
        none_ends(pronouns(), '信'),
{
    reveal_strlit("你");
    let list = pronouns();
    assert forall|i: int| 0 <= i < list.len() implies (#[trigger] list[i]).len() > 0
        && list[i][0] != '我'
        && list[i][0] != '「'
        && list[i][0] != '不'
        && list[i].last() != '信' by {
        if i == 0 {
            assert(list[i] == "你"@);
        }
    }
}

proof fn lemma_questions()
    ensures
        none_begins(questions(), '我'),
        none_begins(questions(), '「'),
        none_begins(questions(), '不'),
        none_ends(questions(), '信'),
{
    reveal_strlit("現在是什麼模式");
    reveal_strlit("現在怎麼模式");
    reveal_strlit("現在在做什麼模式");
    reveal_strlit("現在在什麼模式");
    reveal_strlit("現在用的是什麼模式");
    reveal_strlit("現在是甚麼模式");
    reveal_strlit("甚麼模式");
    reveal_strlit("目前是什麼模式");
    reveal_strlit("現在什麼模式");
    reveal_strlit("現在用什麼模式");
    reveal_strlit("現在使用什麼模式");
    reveal_strlit("目前用什麼模式");
    reveal_strlit("目前的模式是什麼");
    reveal_strlit("現在的模式是什麼");
    reveal_strlit("是什麼模式");
    reveal_strlit("什麼模式");
    reveal_strlit("現在用哪個模式");
    reveal_strlit("目前用哪個模式");
    reveal_strlit("現在是哪個模式");
    reveal_strlit("目前是哪個模式");
    reveal_strlit("現在是什麼辨識模式");
    reveal_strlit("現在是什麼识别模式");
    let list = questions();
    assert forall|i: int| 0 <= i < list.len() implies (#[trigger] list[i]).len() > 0
        && list[i][0] != '我'
        && list[i][0] != '「'
        && list[i][0] != '不'
        && list[i].last() != '信' by {
        if i == 0 {
            assert(list[i] == "現在是什麼模式"@);
        } else if i == 1 {
            assert(list[i] == "現在怎麼模式"@);
        } else if i == 2 {
            assert(list[i] == "現在在做什麼模式"@);
        } else if i == 3 {
            assert(list[i] == "現在在什麼模式"@);
        } else if i == 4 {
            assert(list[i] == "現在用的是什麼模式"@);
        } else if i == 5 {
            assert(list[i] == "現在是甚麼模式"@);
        } else if i == 6 {
            assert(list[i] == "甚麼模式"@);
        } else if i == 7 {
            assert(list[i] == "目前是什麼模式"@);
        } else if i == 8 {
            assert(list[i] == "現在什麼模式"@);
        } else if i == 9 {
            assert(list[i] == "現在用什麼模式"@);
        } else if i == 10 {
            assert(list[i] == "現在使用什麼模式"@);
        } else if i == 11 {
            assert(list[i] == "目前用什麼模式"@);
        } else if i == 12 {
            assert(list[i] == "目前的模式是什麼"@);
        } else if i == 13 {
            assert(list[i] == "現在的模式是什麼"@);
        } else if i == 14 {
            assert(list[i] == "是什麼模式"@);
        } else if i == 15 {
            assert(list[i] == "什麼模式"@);
        } else if i == 16 {
            assert(list[i] == "現在用哪個模式"@);
        } else if i == 17 {
            assert(list[i] == "目前用哪個模式"@);
        } else if i == 18 {
            assert(list[i] == "現在是哪個模式"@);
        } else if i == 19 {
            assert(list[i] == "目前是哪個模式"@);
        } else if i == 20 {
            assert(list[i] == "現在是什麼辨識模式"@);
        } else if i == 21 {
            assert(list[i] == "現在是什麼识别模式"@);
        }
    }
}

proof fn lemma_helps()
    ensures
        none_begins(helps(), '我'),
        none_begins(helps(), '「'),
        none_begins(helps(), '不'),
        none_ends(helps(), '信'),
{
    reveal_strlit("幫我");
    reveal_strlit("幫忙");
    let list = helps();
    assert forall|i: int| 0 <= i < list.len() implies (#[trigger] list[i]).len() > 0
        && list[i][0] != '我'
        && list[i][0] != '「'
        && list[i][0] != '不'
        && list[i].last() != '信' by {
        if i == 0 {
            assert(list[i] == "幫我"@);
        } else if i == 1 {
            assert(list[i] == "幫忙"@);
        }
    }
}

proof fn lemma_verbs()
    ensures
        none_begins(verbs(), '我'),
        none_begins(verbs(), '「'),
        none_begins(verbs(), '不'),
        none_ends(verbs(), '信'),
{
    reveal_strlit("切換到");
    reveal_strlit("切換成");
    reveal_strlit("切換為");
    reveal_strlit("切到");
    reveal_strlit("切成");
    reveal_strlit("換成");
    reveal_strlit("換到");
    reveal_strlit("改成");
    reveal_strlit("改用");
    reveal_strlit("切換");
    let list = verbs();
    assert forall|i: int| 0 <= i < list.len() implies (#[trigger] list[i]).len() > 0
        && list[i][0] != '我'
        && list[i][0] != '「'
        && list[i][0] != '不'
        && list[i].last() != '信' by {
        if i == 0 {
            assert(list[i] == "切換到"@);
        } else if i == 1 {
            assert(list[i] == "切換成"@);
        } else if i == 2 {
            assert(list[i] == "切換為"@);
        } else if i == 3 {
            assert(list[i] == "切到"@);
        } else if i == 4 {
            assert(list[i] == "切成"@);
        } else if i == 5 {
            assert(list[i] == "換成"@);
        } else if i == 6 {
            assert(list[i] == "換到"@);
        } else if i == 7 {
            assert(list[i] == "改成"@);
        } else if i == 8 {
            assert(list[i] == "改用"@);
        } else if i == 9 {
            assert(list[i] == "切換"@);
        }
    }
}

proof fn lemma_mode_words()
    ensures
        none_ends(mode_words(), '信'),
{
    reveal_strlit("模式");
    let list = mode_words();
    assert forall|i: int| 0 <= i < list.len() implies (#[trigger] list[i]).len() > 0
        && list[i].last() != '信' by {
        if i == 0 {
            assert(list[i] == "模式"@);
        }
    }
}

proof fn lemma_auto_words()
    ensures
        none_ends(auto_words(), '信'),
{
    reveal_strlit("auto");
    reveal_strlit("otto");
    reveal_strlit("自動");
    reveal_strlit("自动");
    let list = auto_words();
    assert forall|i: int| 0 <= i < list.len() implies (#[trigger] list[i]).len() > 0
        && list[i].last() != '信' by {
        if i == 0 {
            assert(list[i] == "auto"@);
        } else if i == 1 {
            assert(list[i] == "otto"@);
        } else if i == 2 {
            assert(list[i] == "自動"@);
        } else if i == 3 {
            assert(list[i] == "自动"@);
        }
    }
}

proof fn lemma_groq_words()
    ensures
        none_ends(groq_words(), '信'),
{
    reveal_strlit("groq");
    reveal_strlit("grok");
    reveal_strlit("groque");
    reveal_strlit("雲端");
    reveal_strlit("云端");
    reveal_strlit("線上");
    reveal_strlit("在線");
    reveal_strlit("在綫");
    let list = groq_words();
    assert forall|i: int| 0 <= i < list.len() implies (#[trigger] list[i]).len() > 0
        && list[i].last() != '信' by {
        if i == 0 {
            assert(list[i] == "groq"@);
        } else if i == 1 {
            assert(list[i] == "grok"@);
        } else if i == 2 {
            assert(list[i] == "groque"@);
        } else if i == 3 {
            assert(list[i] == "雲端"@);
        } else if i == 4 {
            assert(list[i] == "云端"@);
        } else if i == 5 {
            assert(list[i] == "線上"@);
        } else if i == 6 {
            assert(list[i] == "在線"@);
        } else if i == 7 {
            assert(list[i] == "在綫"@);
        }
    }
}

proof fn lemma_local_words()
    ensures
        none_ends(local_words(), '信'),
{
    reveal_strlit("local");
    reveal_strlit("loko");
    reveal_strlit("本機");
    reveal_strlit("本机");
    reveal_strlit("本地");
    reveal_strlit("離線");
    let list = local_words();
    assert forall|i: int| 0 <= i < list.len() implies (#[trigger] list[i]).len() > 0
        && list[i].last() != '信' by {
        if i == 0 {
            assert(list[i] == "local"@);
        } else if i == 1 {
            assert(list[i] == "loko"@);
        } else if i == 2 {
            assert(list[i] == "本機"@);
        } else if i == 3 {
            assert(list[i] == "本机"@);
        } else if i == 4 {
            assert(list[i] == "本地"@);
        } else if i == 5 {
            assert(list[i] == "離線"@);
        }
    }
}

/// The lower case of what is said in ASCII and Chinese characters.
proof fn lemma_said_plainly(text: Seq<char>, low: Seq<char>, t: Seq<char>)
    requires
        is_plain_text(text),
        ascii_lowered(text) == low,
    ensures
        spoken(lowered(text + t)) == spoken(low) + spoken(lowered(t)),
        spoken(lowered(t + text)) == spoken(lowered(t)) + spoken(low),
{
    lemma_lowered_plain(text);
    lemma_lowered_add(text, t);
    lemma_lowered_add(t, text);
    lemma_spoken_add(low, lowered(t));
    lemma_spoken_add(lowered(t), low);
}

pub proof fn lemma_longest_is_at_most(s: Seq<char>, list: Seq<Seq<char>>, n: nat)
    requires
        forall|i: int|
            0 <= i < list.len() && starts_with(s, #[trigger] list[i]) ==> list[i].len() <= n,
    ensures
        longest_prefix(s, list) <= n,
    decreases list.len(),
{
    if list.len() > 0 {
        let rest = list.drop_last();
        assert forall|i: int|
            0 <= i < rest.len() && starts_with(s, #[trigger] rest[i]) implies rest[i].len() <= n by {
            assert(rest[i] == list[i]);
        }
        lemma_longest_is_at_most(s, rest, n);
        assert(list.last() == list[list.len() - 1]);
    }
}

/// Of the names, `mori` alone is heard before this word.
proof fn lemma_called_mori(s: Seq<char>)
    requires
        s.len() > 0,
        s[0] == '不',
    ensures
        longest_prefix("mori"@ + s, names()) == 4,
{
    let all = "mori"@ + s;
    let list = names();
    reveal_strlit("mori");
    reveal_strlit("moris");
    reveal_strlit("morris");
    reveal_strlit("maurice");
    reveal_strlit("morley");
    reveal_strlit("mory");
    reveal_strlit("molly");
    reveal_strlit("morning");
    reveal_strlit("莫莉");
    reveal_strlit("茉莉");
    reveal_strlit("摩利");
    reveal_strlit("摩里");
    reveal_strlit("莫里");
    reveal_strlit("莫里斯");
    reveal_strlit("毛利");
    reveal_strlit("毛蕊");
    reveal_strlit("貓咪");
    reveal_strlit("猫咪");
    reveal_strlit("魔力");
    assert(all[0] == 'm' && all[1] == 'o' && all[2] == 'r' && all[3] == 'i' && all[4] == '不');
    assert forall|i: int|
        0 <= i < list.len() && starts_with(all, #[trigger] list[i]) implies list[i].len() <= 4 by {
        let w = list[i];
        assert(forall|k: int| 0 <= k < w.len() ==> all.take(w.len() as int)[k] == all[k]);
        if i == 0 {
            assert(w == "mori"@);
        } else if i == 1 {
            assert(w == "moris"@);
            assert(w[4] == all[4]);
        } else if i == 2 {
            assert(w == "morris"@);
            assert(w[3] == all[3]);
        } else if i == 3 {
            assert(w == "maurice"@);
            assert(w[1] == all[1]);
        } else if i == 4 {
            assert(w == "morley"@);
            assert(w[3] == all[3]);
        } else if i == 5 {
            assert(w == "mory"@);
        } else if i == 6 {
            assert(w == "molly"@);
            assert(w[2] == all[2]);
        } else if i == 7 {
            assert(w == "morning"@);
            assert(w[3] == all[3]);
        } else if i == 8 {
            assert(w == "莫莉"@);
        } else if i == 9 {
            assert(w == "茉莉"@);
        } else if i == 10 {
            assert(w == "摩利"@);
        } else if i == 11 {
            assert(w == "摩里"@);
        } else if i == 12 {
            assert(w == "莫里"@);
        } else if i == 13 {
            assert(w == "莫里斯"@);
        } else if i == 14 {
            assert(w == "毛利"@);
        } else if i == 15 {
            assert(w == "毛蕊"@);
        } else if i == 16 {
            assert(w == "貓咪"@);
        } else if i == 17 {
            assert(w == "猫咪"@);
        } else if i == 18 {
            assert(w == "魔力"@);
        }
    }
    lemma_longest_is_at_most(all, list, 4);
    assert(list[0] == "mori"@);
    assert(all.take(4) =~= "mori"@);
    law_longest_name_is_heard(all, list, "mori"@);
}

/// What is said as it stands: without white space and punctuation, in traditional characters.
pub proof fn lemma_said_as_it_stands(s: Seq<char>)
    requires
        forall|i: int|
            0 <= i < s.len() ==> !is_space(#[trigger] s[i]) && !is_punctuation(s[i]) && traditional(
                s[i],
            ) == s[i],
    ensures
        spoken(s) == s,
    decreases s.len(),
{
    if s.len() > 0 {
        let rest = s.drop_last();
        assert forall|i: int| 0 <= i < rest.len() implies !is_space(#[trigger] rest[i])
            && !is_punctuation(rest[i]) && traditional(rest[i]) == rest[i] by {
            assert(rest[i] == s[i]);
        }
        lemma_said_as_it_stands(rest);
        assert(s[s.len() - 1] == s.last());
        assert(rest.push(s.last()) =~= s);
    } else {
        assert(spoken(s) =~= s);
    }
}

proof fn lemma_i_said(t: Seq<char>)
    ensures
        command_of("我說"@ + t) is None,
{
    reveal_strlit("我說");
    let before = "我說"@;
    assert(ascii_lowered(before) =~= before);
    lemma_said_plainly(before, before, t);
    lemma_said_as_it_stands(before);
    lemma_greetings();
    lemma_names();
    lemma_courtesies();
    lemma_particles();
    lemma_pronouns();
    lemma_questions();
    lemma_helps();
    lemma_verbs();
    law_words_before_make_dictation(before, spoken(lowered(t)));
}

proof fn lemma_quoted(t: Seq<char>)
    ensures
        command_of("「"@ + t + "」"@) is None,
{
    reveal_strlit("「");
    let open = "「"@;
    let rest = t + "」"@;
    assert(ascii_lowered(open) =~= open);
    lemma_said_plainly(open, open, rest);
    lemma_said_as_it_stands(open);
    assert(open + rest =~= open + t + "」"@);
    lemma_greetings();
    lemma_names();
    lemma_courtesies();
    lemma_particles();
    lemma_pronouns();
    lemma_questions();
    lemma_helps();
    lemma_verbs();
    law_words_before_make_dictation(open, spoken(lowered(rest)));
}

proof fn lemma_told_not_to(t: Seq<char>)
    ensures
        command_of("Mori不要"@ + t) is None,
{
    reveal_strlit("Mori不要");
    reveal_strlit("mori");
    let not = "Mori不要"@;
    let low = "mori"@ + seq!['不', '要'];
    assert(ascii_lowered(not) =~= low);
    lemma_said_plainly(not, low, t);
    lemma_said_as_it_stands(low);
    let tail = seq!['不', '要'] + spoken(lowered(t));
    let all = low + spoken(lowered(t));
    assert(all =~= "mori"@ + tail);
    lemma_greetings();
    lemma_no_prefix(all, greetings());
    lemma_called_mori(tail);
    assert(all.skip(4) =~= tail);
    lemma_courtesies();
    lemma_particles();
    lemma_pronouns();
    lemma_questions();
    lemma_helps();
    lemma_verbs();
    lemma_no_request(tail);
}

proof fn lemma_and_then(t: Seq<char>)
    ensures
        command_of(t + "然後寫信"@) is None,
{
    reveal_strlit("然後寫信");
    let after = "然後寫信"@;
    assert(ascii_lowered(after) =~= after);
    lemma_said_plainly(after, after, t);
    lemma_said_as_it_stands(after);
    lemma_greetings();
    lemma_names();
    lemma_courtesies();
    lemma_particles();
    lemma_pronouns();
    lemma_questions();
    lemma_helps();
    lemma_verbs();
    lemma_mode_words();
    lemma_auto_words();
    lemma_groq_words();
    lemma_local_words();
    law_words_after_make_dictation(spoken(lowered(t)), after);
}

/// A command is no part of dictation: with "I said" before it, in quotation marks, told not to be
/// carried out, or with something else to do after it, it is none.
pub proof fn law_part_of_dictation_is_no_command(t: Seq<char>)
    ensures
        command_of("我說"@ + t) is None,
        command_of("「"@ + t + "」"@) is None,
        command_of("Mori不要"@ + t) is None,
        command_of(t + "然後寫信"@) is None,
{
    lemma_i_said(t);
    lemma_quoted(t);
    lemma_told_not_to(t);
    lemma_and_then(t);
}

} // verus!
