//! Every command is understood: what each word means, and that an utterance made of them, from the
//! greeting to the closing particle, is the command that it says.
use crate::dictation::{
    lemma_longest_is_at_most, lemma_no_prefix, lemma_no_suffix, lemma_said_as_it_stands,
};
use crate::mode_command::{
    after_prefix, auto_words, before_suffix, command_in, command_of, courtesies, greetings,
    groq_words, helps, is_addressed, is_order, is_punctuation, law_longest_name_is_heard,
    law_switch_is_a_whole_addressed_order, lemma_longest_prefix, lemma_without_prefix,
    lemma_without_suffix, local_words, longest_prefix, mode_for, mode_words, names, parse,
    particles, pronouns, questions, request_in, said, spoken, status_after_cleanup, traditional,
    verbs, without_prefix, without_suffix, Command, Meaning, Order,
};
use crate::text::{
    ascii_lower, ascii_lowered, ends_with, is_plain, is_plain_text, is_space, lemma_lowered_plain,
    lowered, starts_with,
};
use vstd::prelude::*;

verus! {

// ---------------------------------------------------------------------------------------------
// The words
// ---------------------------------------------------------------------------------------------

/// Whether the word may open an utterance.
pub open spec fn is_greeting(w: Seq<char>) -> bool {
    ||| w == "hey"@
    ||| w == "嘿"@
}

/// Whether Mori is called so, as recognisers write it.
pub open spec fn is_name(w: Seq<char>) -> bool {
    ||| w == "mori"@
    ||| w == "moris"@
    ||| w == "morris"@
    ||| w == "maurice"@
    ||| w == "morley"@
    ||| w == "mory"@
    ||| w == "molly"@
    ||| w == "morning"@
    ||| w == "莫莉"@
    ||| w == "茉莉"@
    ||| w == "摩利"@
    ||| w == "摩里"@
    ||| w == "莫里"@
    ||| w == "莫里斯"@
    ||| w == "毛利"@
    ||| w == "毛蕊"@
    ||| w == "貓咪"@
    ||| w == "猫咪"@
    ||| w == "魔力"@
}

/// Whether the words ask politely.
pub open spec fn is_courtesy(w: Seq<char>) -> bool {
    ||| w == "請問"@
    ||| w == "請"@
}

/// Whether the word may close an utterance.
pub open spec fn is_particle(w: Seq<char>) -> bool {
    ||| w == "呢"@
    ||| w == "啊"@
}

/// Whether the word speaks to Mori.
pub open spec fn is_pronoun(w: Seq<char>) -> bool {
    ||| w == "你"@
}

/// Whether the words ask which mode it is.
pub open spec fn is_question(w: Seq<char>) -> bool {
    ||| w == "現在是什麼模式"@
    ||| w == "現在怎麼模式"@
    ||| w == "現在在做什麼模式"@
    ||| w == "現在在什麼模式"@
    ||| w == "現在用的是什麼模式"@
    ||| w == "現在是甚麼模式"@
    ||| w == "甚麼模式"@
    ||| w == "目前是什麼模式"@
    ||| w == "現在什麼模式"@
    ||| w == "現在用什麼模式"@
    ||| w == "現在使用什麼模式"@
    ||| w == "目前用什麼模式"@
    ||| w == "目前的模式是什麼"@
    ||| w == "現在的模式是什麼"@
    ||| w == "是什麼模式"@
    ||| w == "什麼模式"@
    ||| w == "現在用哪個模式"@
    ||| w == "目前用哪個模式"@
    ||| w == "現在是哪個模式"@
    ||| w == "目前是哪個模式"@
    ||| w == "現在是什麼辨識模式"@
    ||| w == "現在是什麼识别模式"@
}

/// Whether the words ask for help.
pub open spec fn is_help(w: Seq<char>) -> bool {
    ||| w == "幫我"@
    ||| w == "幫忙"@
}

/// Whether the words ask to switch.
pub open spec fn is_verb(w: Seq<char>) -> bool {
    ||| w == "切換到"@
    ||| w == "切換成"@
    ||| w == "切換為"@
    ||| w == "切到"@
    ||| w == "切成"@
    ||| w == "換成"@
    ||| w == "換到"@
    ||| w == "改成"@
    ||| w == "改用"@
    ||| w == "切換"@
}

/// Whether the word says that a mode was named.
pub open spec fn is_mode_word(w: Seq<char>) -> bool {
    ||| w == "模式"@
}

/// Whether the word names automatic mode.
pub open spec fn is_auto_word(w: Seq<char>) -> bool {
    ||| w == "auto"@
    ||| w == "otto"@
    ||| w == "自動"@
    ||| w == "自动"@
}

/// Whether the word names the mode in which Groq is asked.
pub open spec fn is_groq_word(w: Seq<char>) -> bool {
    ||| w == "groq"@
    ||| w == "grok"@
    ||| w == "groque"@
    ||| w == "雲端"@
    ||| w == "云端"@
    ||| w == "線上"@
    ||| w == "在線"@
    ||| w == "在綫"@
}

/// Whether the word names the mode in which nothing leaves this machine.
pub open spec fn is_local_word(w: Seq<char>) -> bool {
    ||| w == "local"@
    ||| w == "loko"@
    ||| w == "本機"@
    ||| w == "本机"@
    ||| w == "本地"@
    ||| w == "離線"@
}

/// The mode that a word names.
pub open spec fn names_mode(w: Seq<char>, mode: Seq<char>) -> bool {
    ||| is_auto_word(w) && mode == "auto"@
    ||| is_groq_word(w) && mode == "groq"@
    ||| is_local_word(w) && mode == "local"@
}

/// Whether the words are left out, or are those that are meant.
pub open spec fn is_or_empty(w: Seq<char>, meant: bool) -> bool {
    w.len() == 0 || meant
}

/// A character that is written as it is said.
pub open spec fn is_fixed(c: char) -> bool {
    &&& is_plain(c)
    &&& ascii_lower(c) == c
    &&& !is_space(c)
    &&& !is_punctuation(c)
    &&& traditional(c) == c
}

/// Whether all characters are so.
pub open spec fn all_fixed(s: Seq<char>) -> bool {
    forall|i: int| 0 <= i < s.len() ==> is_fixed(#[trigger] s[i])
}

/// Whether what follows a name begins with the character.
pub open spec fn opens(c: char) -> bool {
    ||| c == '請'
    ||| c == '幫'
    ||| c == '切'
    ||| c == '換'
    ||| c == '改'
    ||| c == '你'
    ||| c == '現'
    ||| c == '甚'
    ||| c == '目'
    ||| c == '是'
    ||| c == '什'
}

proof fn lemma_greetings(w: Seq<char>)
    ensures
        greetings().contains(w) <==> is_greeting(w),
{
    let list = greetings();
    assert(list.len() == 2);
    assert(list[0] == "hey"@);
    assert(list[1] == "嘿"@);
    if is_greeting(w) {
        if w == "hey"@ {
            assert(list.contains(list[0]));
        }
        if w == "嘿"@ {
            assert(list.contains(list[1]));
        }
    }
    if list.contains(w) {
        let i = choose|i: int| 0 <= i < list.len() && list[i] == w;
        assert(i == 0 || i == 1);
    }
}

proof fn lemma_names(w: Seq<char>)
    ensures
        names().contains(w) <==> is_name(w),
{
    let list = names();
    assert(list.len() == 19);
    assert(list[0] == "mori"@);
    assert(list[1] == "moris"@);
    assert(list[2] == "morris"@);
    assert(list[3] == "maurice"@);
    assert(list[4] == "morley"@);
    assert(list[5] == "mory"@);
    assert(list[6] == "molly"@);
    assert(list[7] == "morning"@);
    assert(list[8] == "莫莉"@);
    assert(list[9] == "茉莉"@);
    assert(list[10] == "摩利"@);
    assert(list[11] == "摩里"@);
    assert(list[12] == "莫里"@);
    assert(list[13] == "莫里斯"@);
    assert(list[14] == "毛利"@);
    assert(list[15] == "毛蕊"@);
    assert(list[16] == "貓咪"@);
    assert(list[17] == "猫咪"@);
    assert(list[18] == "魔力"@);
    if is_name(w) {
        if w == "mori"@ {
            assert(list.contains(list[0]));
        }
        if w == "moris"@ {
            assert(list.contains(list[1]));
        }
        if w == "morris"@ {
            assert(list.contains(list[2]));
        }
        if w == "maurice"@ {
            assert(list.contains(list[3]));
        }
        if w == "morley"@ {
            assert(list.contains(list[4]));
        }
        if w == "mory"@ {
            assert(list.contains(list[5]));
        }
        if w == "molly"@ {
            assert(list.contains(list[6]));
        }
        if w == "morning"@ {
            assert(list.contains(list[7]));
        }
        if w == "莫莉"@ {
            assert(list.contains(list[8]));
        }
        if w == "茉莉"@ {
            assert(list.contains(list[9]));
        }
        if w == "摩利"@ {
            assert(list.contains(list[10]));
        }
        if w == "摩里"@ {
            assert(list.contains(list[11]));
        }
        if w == "莫里"@ {
            assert(list.contains(list[12]));
        }
        if w == "莫里斯"@ {
            assert(list.contains(list[13]));
        }
        if w == "毛利"@ {
            assert(list.contains(list[14]));
        }
        if w == "毛蕊"@ {
            assert(list.contains(list[15]));
        }
        if w == "貓咪"@ {
            assert(list.contains(list[16]));
        }
        if w == "猫咪"@ {
            assert(list.contains(list[17]));
        }
        if w == "魔力"@ {
            assert(list.contains(list[18]));
        }
    }
    if list.contains(w) {
        let i = choose|i: int| 0 <= i < list.len() && list[i] == w;
        assert(i == 0 || i == 1 || i == 2 || i == 3 || i == 4 || i == 5 || i == 6 || i == 7
            || i == 8 || i == 9 || i == 10 || i == 11 || i == 12 || i == 13 || i == 14
            || i == 15 || i == 16 || i == 17 || i == 18);
    }
}

proof fn lemma_courtesies(w: Seq<char>)
    ensures
        courtesies().contains(w) <==> is_courtesy(w),
{
    let list = courtesies();
    assert(list.len() == 2);
    assert(list[0] == "請問"@);
    assert(list[1] == "請"@);
    if is_courtesy(w) {
        if w == "請問"@ {
            assert(list.contains(list[0]));
        }
        if w == "請"@ {
            assert(list.contains(list[1]));
        }
    }
    if list.contains(w) {
        let i = choose|i: int| 0 <= i < list.len() && list[i] == w;
        assert(i == 0 || i == 1);
    }
}

proof fn lemma_particles(w: Seq<char>)
    ensures
        particles().contains(w) <==> is_particle(w),
{
    let list = particles();
    assert(list.len() == 2);
    assert(list[0] == "呢"@);
    assert(list[1] == "啊"@);
    if is_particle(w) {
        if w == "呢"@ {
            assert(list.contains(list[0]));
        }
        if w == "啊"@ {
            assert(list.contains(list[1]));
        }
    }
    if list.contains(w) {
        let i = choose|i: int| 0 <= i < list.len() && list[i] == w;
        assert(i == 0 || i == 1);
    }
}

proof fn lemma_pronouns(w: Seq<char>)
    ensures
        pronouns().contains(w) <==> is_pronoun(w),
{
    let list = pronouns();
    assert(list.len() == 1);
    assert(list[0] == "你"@);
    if is_pronoun(w) {
        if w == "你"@ {
            assert(list.contains(list[0]));
        }
    }
    if list.contains(w) {
        let i = choose|i: int| 0 <= i < list.len() && list[i] == w;
        assert(i == 0);
    }
}

proof fn lemma_questions(w: Seq<char>)
    ensures
        questions().contains(w) <==> is_question(w),
{
    let list = questions();
    assert(list.len() == 22);
    assert(list[0] == "現在是什麼模式"@);
    assert(list[1] == "現在怎麼模式"@);
    assert(list[2] == "現在在做什麼模式"@);
    assert(list[3] == "現在在什麼模式"@);
    assert(list[4] == "現在用的是什麼模式"@);
    assert(list[5] == "現在是甚麼模式"@);
    assert(list[6] == "甚麼模式"@);
    assert(list[7] == "目前是什麼模式"@);
    assert(list[8] == "現在什麼模式"@);
    assert(list[9] == "現在用什麼模式"@);
    assert(list[10] == "現在使用什麼模式"@);
    assert(list[11] == "目前用什麼模式"@);
    assert(list[12] == "目前的模式是什麼"@);
    assert(list[13] == "現在的模式是什麼"@);
    assert(list[14] == "是什麼模式"@);
    assert(list[15] == "什麼模式"@);
    assert(list[16] == "現在用哪個模式"@);
    assert(list[17] == "目前用哪個模式"@);
    assert(list[18] == "現在是哪個模式"@);
    assert(list[19] == "目前是哪個模式"@);
    assert(list[20] == "現在是什麼辨識模式"@);
    assert(list[21] == "現在是什麼识别模式"@);
    if is_question(w) {
        if w == "現在是什麼模式"@ {
            assert(list.contains(list[0]));
        }
        if w == "現在怎麼模式"@ {
            assert(list.contains(list[1]));
        }
        if w == "現在在做什麼模式"@ {
            assert(list.contains(list[2]));
        }
        if w == "現在在什麼模式"@ {
            assert(list.contains(list[3]));
        }
        if w == "現在用的是什麼模式"@ {
            assert(list.contains(list[4]));
        }
        if w == "現在是甚麼模式"@ {
            assert(list.contains(list[5]));
        }
        if w == "甚麼模式"@ {
            assert(list.contains(list[6]));
        }
        if w == "目前是什麼模式"@ {
            assert(list.contains(list[7]));
        }
        if w == "現在什麼模式"@ {
            assert(list.contains(list[8]));
        }
        if w == "現在用什麼模式"@ {
            assert(list.contains(list[9]));
        }
        if w == "現在使用什麼模式"@ {
            assert(list.contains(list[10]));
        }
        if w == "目前用什麼模式"@ {
            assert(list.contains(list[11]));
        }
        if w == "目前的模式是什麼"@ {
            assert(list.contains(list[12]));
        }
        if w == "現在的模式是什麼"@ {
            assert(list.contains(list[13]));
        }
        if w == "是什麼模式"@ {
            assert(list.contains(list[14]));
        }
        if w == "什麼模式"@ {
            assert(list.contains(list[15]));
        }
        if w == "現在用哪個模式"@ {
            assert(list.contains(list[16]));
        }
        if w == "目前用哪個模式"@ {
            assert(list.contains(list[17]));
        }
        if w == "現在是哪個模式"@ {
            assert(list.contains(list[18]));
        }
        if w == "目前是哪個模式"@ {
            assert(list.contains(list[19]));
        }
        if w == "現在是什麼辨識模式"@ {
            assert(list.contains(list[20]));
        }
        if w == "現在是什麼识别模式"@ {
            assert(list.contains(list[21]));
        }
    }
    if list.contains(w) {
        let i = choose|i: int| 0 <= i < list.len() && list[i] == w;
        assert(i == 0 || i == 1 || i == 2 || i == 3 || i == 4 || i == 5 || i == 6 || i == 7
            || i == 8 || i == 9 || i == 10 || i == 11 || i == 12 || i == 13 || i == 14
            || i == 15 || i == 16 || i == 17 || i == 18 || i == 19 || i == 20 || i == 21);
    }
}

proof fn lemma_helps(w: Seq<char>)
    ensures
        helps().contains(w) <==> is_help(w),
{
    let list = helps();
    assert(list.len() == 2);
    assert(list[0] == "幫我"@);
    assert(list[1] == "幫忙"@);
    if is_help(w) {
        if w == "幫我"@ {
            assert(list.contains(list[0]));
        }
        if w == "幫忙"@ {
            assert(list.contains(list[1]));
        }
    }
    if list.contains(w) {
        let i = choose|i: int| 0 <= i < list.len() && list[i] == w;
        assert(i == 0 || i == 1);
    }
}

proof fn lemma_verbs(w: Seq<char>)
    ensures
        verbs().contains(w) <==> is_verb(w),
{
    let list = verbs();
    assert(list.len() == 10);
    assert(list[0] == "切換到"@);
    assert(list[1] == "切換成"@);
    assert(list[2] == "切換為"@);
    assert(list[3] == "切到"@);
    assert(list[4] == "切成"@);
    assert(list[5] == "換成"@);
    assert(list[6] == "換到"@);
    assert(list[7] == "改成"@);
    assert(list[8] == "改用"@);
    assert(list[9] == "切換"@);
    if is_verb(w) {
        if w == "切換到"@ {
            assert(list.contains(list[0]));
        }
        if w == "切換成"@ {
            assert(list.contains(list[1]));
        }
        if w == "切換為"@ {
            assert(list.contains(list[2]));
        }
        if w == "切到"@ {
            assert(list.contains(list[3]));
        }
        if w == "切成"@ {
            assert(list.contains(list[4]));
        }
        if w == "換成"@ {
            assert(list.contains(list[5]));
        }
        if w == "換到"@ {
            assert(list.contains(list[6]));
        }
        if w == "改成"@ {
            assert(list.contains(list[7]));
        }
        if w == "改用"@ {
            assert(list.contains(list[8]));
        }
        if w == "切換"@ {
            assert(list.contains(list[9]));
        }
    }
    if list.contains(w) {
        let i = choose|i: int| 0 <= i < list.len() && list[i] == w;
        assert(i == 0 || i == 1 || i == 2 || i == 3 || i == 4 || i == 5 || i == 6 || i == 7
            || i == 8 || i == 9);
    }
}

proof fn lemma_mode_words(w: Seq<char>)
    ensures
        mode_words().contains(w) <==> is_mode_word(w),
{
    let list = mode_words();
    assert(list.len() == 1);
    assert(list[0] == "模式"@);
    if is_mode_word(w) {
        if w == "模式"@ {
            assert(list.contains(list[0]));
        }
    }
    if list.contains(w) {
        let i = choose|i: int| 0 <= i < list.len() && list[i] == w;
        assert(i == 0);
    }
}

proof fn lemma_auto_words(w: Seq<char>)
    ensures
        auto_words().contains(w) <==> is_auto_word(w),
{
    let list = auto_words();
    assert(list.len() == 4);
    assert(list[0] == "auto"@);
    assert(list[1] == "otto"@);
    assert(list[2] == "自動"@);
    assert(list[3] == "自动"@);
    if is_auto_word(w) {
        if w == "auto"@ {
            assert(list.contains(list[0]));
        }
        if w == "otto"@ {
            assert(list.contains(list[1]));
        }
        if w == "自動"@ {
            assert(list.contains(list[2]));
        }
        if w == "自动"@ {
            assert(list.contains(list[3]));
        }
    }
    if list.contains(w) {
        let i = choose|i: int| 0 <= i < list.len() && list[i] == w;
        assert(i == 0 || i == 1 || i == 2 || i == 3);
    }
}

proof fn lemma_groq_words(w: Seq<char>)
    ensures
        groq_words().contains(w) <==> is_groq_word(w),
{
    let list = groq_words();
    assert(list.len() == 8);
    assert(list[0] == "groq"@);
    assert(list[1] == "grok"@);
    assert(list[2] == "groque"@);
    assert(list[3] == "雲端"@);
    assert(list[4] == "云端"@);
    assert(list[5] == "線上"@);
    assert(list[6] == "在線"@);
    assert(list[7] == "在綫"@);
    if is_groq_word(w) {
        if w == "groq"@ {
            assert(list.contains(list[0]));
        }
        if w == "grok"@ {
            assert(list.contains(list[1]));
        }
        if w == "groque"@ {
            assert(list.contains(list[2]));
        }
        if w == "雲端"@ {
            assert(list.contains(list[3]));
        }
        if w == "云端"@ {
            assert(list.contains(list[4]));
        }
        if w == "線上"@ {
            assert(list.contains(list[5]));
        }
        if w == "在線"@ {
            assert(list.contains(list[6]));
        }
        if w == "在綫"@ {
            assert(list.contains(list[7]));
        }
    }
    if list.contains(w) {
        let i = choose|i: int| 0 <= i < list.len() && list[i] == w;
        assert(i == 0 || i == 1 || i == 2 || i == 3 || i == 4 || i == 5 || i == 6 || i == 7);
    }
}

proof fn lemma_local_words(w: Seq<char>)
    ensures
        local_words().contains(w) <==> is_local_word(w),
{
    let list = local_words();
    assert(list.len() == 6);
    assert(list[0] == "local"@);
    assert(list[1] == "loko"@);
    assert(list[2] == "本機"@);
    assert(list[3] == "本机"@);
    assert(list[4] == "本地"@);
    assert(list[5] == "離線"@);
    if is_local_word(w) {
        if w == "local"@ {
            assert(list.contains(list[0]));
        }
        if w == "loko"@ {
            assert(list.contains(list[1]));
        }
        if w == "本機"@ {
            assert(list.contains(list[2]));
        }
        if w == "本机"@ {
            assert(list.contains(list[3]));
        }
        if w == "本地"@ {
            assert(list.contains(list[4]));
        }
        if w == "離線"@ {
            assert(list.contains(list[5]));
        }
    }
    if list.contains(w) {
        let i = choose|i: int| 0 <= i < list.len() && list[i] == w;
        assert(i == 0 || i == 1 || i == 2 || i == 3 || i == 4 || i == 5);
    }
}

proof fn lemma_greeting_chars(w: Seq<char>)
    requires
        is_greeting(w),
    ensures
        w.len() > 0,
        all_fixed(w),
        w[0] == 'h' || w[0] == '嘿',
{
    if w == "hey"@ {
        reveal_strlit("hey");
        assert(w.len() == 3);
        assert(w[0] == 'h');
        assert(w[1] == 'e');
        assert(w[2] == 'y');
    }
    if w == "嘿"@ {
        reveal_strlit("嘿");
        assert(w.len() == 1);
        assert(w[0] == '嘿');
    }
}

proof fn lemma_name_chars(w: Seq<char>)
    requires
        is_name(w),
    ensures
        w.len() > 0,
        all_fixed(w),
        forall|i: int| 0 <= i < w.len() ==> !opens(#[trigger] w[i]),
        w[0] != 'h' && w[0] != '嘿',
{
    if w == "mori"@ {
        reveal_strlit("mori");
        assert(w.len() == 4);
        assert(w[0] == 'm');
        assert(w[1] == 'o');
        assert(w[2] == 'r');
        assert(w[3] == 'i');
    }
    if w == "moris"@ {
        reveal_strlit("moris");
        assert(w.len() == 5);
        assert(w[0] == 'm');
        assert(w[1] == 'o');
        assert(w[2] == 'r');
        assert(w[3] == 'i');
        assert(w[4] == 's');
    }
    if w == "morris"@ {
        reveal_strlit("morris");
        assert(w.len() == 6);
        assert(w[0] == 'm');
        assert(w[1] == 'o');
        assert(w[2] == 'r');
        assert(w[3] == 'r');
        assert(w[4] == 'i');
        assert(w[5] == 's');
    }
    if w == "maurice"@ {
        reveal_strlit("maurice");
        assert(w.len() == 7);
        assert(w[0] == 'm');
        assert(w[1] == 'a');
        assert(w[2] == 'u');
        assert(w[3] == 'r');
        assert(w[4] == 'i');
        assert(w[5] == 'c');
        assert(w[6] == 'e');
    }
    if w == "morley"@ {
        reveal_strlit("morley");
        assert(w.len() == 6);
        assert(w[0] == 'm');
        assert(w[1] == 'o');
        assert(w[2] == 'r');
        assert(w[3] == 'l');
        assert(w[4] == 'e');
        assert(w[5] == 'y');
    }
    if w == "mory"@ {
        reveal_strlit("mory");
        assert(w.len() == 4);
        assert(w[0] == 'm');
        assert(w[1] == 'o');
        assert(w[2] == 'r');
        assert(w[3] == 'y');
    }
    if w == "molly"@ {
        reveal_strlit("molly");
        assert(w.len() == 5);
        assert(w[0] == 'm');
        assert(w[1] == 'o');
        assert(w[2] == 'l');
        assert(w[3] == 'l');
        assert(w[4] == 'y');
    }
    if w == "morning"@ {
        reveal_strlit("morning");
        assert(w.len() == 7);
        assert(w[0] == 'm');
        assert(w[1] == 'o');
        assert(w[2] == 'r');
        assert(w[3] == 'n');
        assert(w[4] == 'i');
        assert(w[5] == 'n');
        assert(w[6] == 'g');
    }
    if w == "莫莉"@ {
        reveal_strlit("莫莉");
        assert(w.len() == 2);
        assert(w[0] == '莫');
        assert(w[1] == '莉');
    }
    if w == "茉莉"@ {
        reveal_strlit("茉莉");
        assert(w.len() == 2);
        assert(w[0] == '茉');
        assert(w[1] == '莉');
    }
    if w == "摩利"@ {
        reveal_strlit("摩利");
        assert(w.len() == 2);
        assert(w[0] == '摩');
        assert(w[1] == '利');
    }
    if w == "摩里"@ {
        reveal_strlit("摩里");
        assert(w.len() == 2);
        assert(w[0] == '摩');
        assert(w[1] == '里');
    }
    if w == "莫里"@ {
        reveal_strlit("莫里");
        assert(w.len() == 2);
        assert(w[0] == '莫');
        assert(w[1] == '里');
    }
    if w == "莫里斯"@ {
        reveal_strlit("莫里斯");
        assert(w.len() == 3);
        assert(w[0] == '莫');
        assert(w[1] == '里');
        assert(w[2] == '斯');
    }
    if w == "毛利"@ {
        reveal_strlit("毛利");
        assert(w.len() == 2);
        assert(w[0] == '毛');
        assert(w[1] == '利');
    }
    if w == "毛蕊"@ {
        reveal_strlit("毛蕊");
        assert(w.len() == 2);
        assert(w[0] == '毛');
        assert(w[1] == '蕊');
    }
    if w == "貓咪"@ {
        reveal_strlit("貓咪");
        assert(w.len() == 2);
        assert(w[0] == '貓');
        assert(w[1] == '咪');
    }
    if w == "猫咪"@ {
        reveal_strlit("猫咪");
        assert(w.len() == 2);
        assert(w[0] == '猫');
        assert(w[1] == '咪');
    }
    if w == "魔力"@ {
        reveal_strlit("魔力");
        assert(w.len() == 2);
        assert(w[0] == '魔');
        assert(w[1] == '力');
    }
}

proof fn lemma_courtesy_chars(w: Seq<char>)
    requires
        is_courtesy(w),
    ensures
        w.len() > 0,
        all_fixed(w),
        w[0] == '請',
{
    if w == "請問"@ {
        reveal_strlit("請問");
        assert(w.len() == 2);
        assert(w[0] == '請');
        assert(w[1] == '問');
    }
    if w == "請"@ {
        reveal_strlit("請");
        assert(w.len() == 1);
        assert(w[0] == '請');
    }
}

proof fn lemma_particle_chars(w: Seq<char>)
    requires
        is_particle(w),
    ensures
        w.len() > 0,
        all_fixed(w),
        w.len() == 1,
        w[0] == '呢' || w[0] == '啊',
{
    if w == "呢"@ {
        reveal_strlit("呢");
        assert(w.len() == 1);
        assert(w[0] == '呢');
    }
    if w == "啊"@ {
        reveal_strlit("啊");
        assert(w.len() == 1);
        assert(w[0] == '啊');
    }
}

proof fn lemma_pronoun_chars(w: Seq<char>)
    requires
        is_pronoun(w),
    ensures
        w.len() > 0,
        all_fixed(w),
        w[0] == '你',
{
    if w == "你"@ {
        reveal_strlit("你");
        assert(w.len() == 1);
        assert(w[0] == '你');
    }
}

proof fn lemma_question_chars(w: Seq<char>)
    requires
        is_question(w),
    ensures
        w.len() > 0,
        all_fixed(w),
        w[0] == '現' || w[0] == '甚' || w[0] == '目' || w[0] == '是' || w[0] == '什',
        w.last() != '呢' && w.last() != '啊',
{
    if w == "現在是什麼模式"@ {
        reveal_strlit("現在是什麼模式");
        assert(w.len() == 7);
        assert(w[0] == '現');
        assert(w[1] == '在');
        assert(w[2] == '是');
        assert(w[3] == '什');
        assert(w[4] == '麼');
        assert(w[5] == '模');
        assert(w[6] == '式');
    }
    if w == "現在怎麼模式"@ {
        reveal_strlit("現在怎麼模式");
        assert(w.len() == 6);
        assert(w[0] == '現');
        assert(w[1] == '在');
        assert(w[2] == '怎');
        assert(w[3] == '麼');
        assert(w[4] == '模');
        assert(w[5] == '式');
    }
    if w == "現在在做什麼模式"@ {
        reveal_strlit("現在在做什麼模式");
        assert(w.len() == 8);
        assert(w[0] == '現');
        assert(w[1] == '在');
        assert(w[2] == '在');
        assert(w[3] == '做');
        assert(w[4] == '什');
        assert(w[5] == '麼');
        assert(w[6] == '模');
        assert(w[7] == '式');
    }
    if w == "現在在什麼模式"@ {
        reveal_strlit("現在在什麼模式");
        assert(w.len() == 7);
        assert(w[0] == '現');
        assert(w[1] == '在');
        assert(w[2] == '在');
        assert(w[3] == '什');
        assert(w[4] == '麼');
        assert(w[5] == '模');
        assert(w[6] == '式');
    }
    if w == "現在用的是什麼模式"@ {
        reveal_strlit("現在用的是什麼模式");
        assert(w.len() == 9);
        assert(w[0] == '現');
        assert(w[1] == '在');
        assert(w[2] == '用');
        assert(w[3] == '的');
        assert(w[4] == '是');
        assert(w[5] == '什');
        assert(w[6] == '麼');
        assert(w[7] == '模');
        assert(w[8] == '式');
    }
    if w == "現在是甚麼模式"@ {
        reveal_strlit("現在是甚麼模式");
        assert(w.len() == 7);
        assert(w[0] == '現');
        assert(w[1] == '在');
        assert(w[2] == '是');
        assert(w[3] == '甚');
        assert(w[4] == '麼');
        assert(w[5] == '模');
        assert(w[6] == '式');
    }
    if w == "甚麼模式"@ {
        reveal_strlit("甚麼模式");
        assert(w.len() == 4);
        assert(w[0] == '甚');
        assert(w[1] == '麼');
        assert(w[2] == '模');
        assert(w[3] == '式');
    }
    if w == "目前是什麼模式"@ {
        reveal_strlit("目前是什麼模式");
        assert(w.len() == 7);
        assert(w[0] == '目');
        assert(w[1] == '前');
        assert(w[2] == '是');
        assert(w[3] == '什');
        assert(w[4] == '麼');
        assert(w[5] == '模');
        assert(w[6] == '式');
    }
    if w == "現在什麼模式"@ {
        reveal_strlit("現在什麼模式");
        assert(w.len() == 6);
        assert(w[0] == '現');
        assert(w[1] == '在');
        assert(w[2] == '什');
        assert(w[3] == '麼');
        assert(w[4] == '模');
        assert(w[5] == '式');
    }
    if w == "現在用什麼模式"@ {
        reveal_strlit("現在用什麼模式");
        assert(w.len() == 7);
        assert(w[0] == '現');
        assert(w[1] == '在');
        assert(w[2] == '用');
        assert(w[3] == '什');
        assert(w[4] == '麼');
        assert(w[5] == '模');
        assert(w[6] == '式');
    }
    if w == "現在使用什麼模式"@ {
        reveal_strlit("現在使用什麼模式");
        assert(w.len() == 8);
        assert(w[0] == '現');
        assert(w[1] == '在');
        assert(w[2] == '使');
        assert(w[3] == '用');
        assert(w[4] == '什');
        assert(w[5] == '麼');
        assert(w[6] == '模');
        assert(w[7] == '式');
    }
    if w == "目前用什麼模式"@ {
        reveal_strlit("目前用什麼模式");
        assert(w.len() == 7);
        assert(w[0] == '目');
        assert(w[1] == '前');
        assert(w[2] == '用');
        assert(w[3] == '什');
        assert(w[4] == '麼');
        assert(w[5] == '模');
        assert(w[6] == '式');
    }
    if w == "目前的模式是什麼"@ {
        reveal_strlit("目前的模式是什麼");
        assert(w.len() == 8);
        assert(w[0] == '目');
        assert(w[1] == '前');
        assert(w[2] == '的');
        assert(w[3] == '模');
        assert(w[4] == '式');
        assert(w[5] == '是');
        assert(w[6] == '什');
        assert(w[7] == '麼');
    }
    if w == "現在的模式是什麼"@ {
        reveal_strlit("現在的模式是什麼");
        assert(w.len() == 8);
        assert(w[0] == '現');
        assert(w[1] == '在');
        assert(w[2] == '的');
        assert(w[3] == '模');
        assert(w[4] == '式');
        assert(w[5] == '是');
        assert(w[6] == '什');
        assert(w[7] == '麼');
    }
    if w == "是什麼模式"@ {
        reveal_strlit("是什麼模式");
        assert(w.len() == 5);
        assert(w[0] == '是');
        assert(w[1] == '什');
        assert(w[2] == '麼');
        assert(w[3] == '模');
        assert(w[4] == '式');
    }
    if w == "什麼模式"@ {
        reveal_strlit("什麼模式");
        assert(w.len() == 4);
        assert(w[0] == '什');
        assert(w[1] == '麼');
        assert(w[2] == '模');
        assert(w[3] == '式');
    }
    if w == "現在用哪個模式"@ {
        reveal_strlit("現在用哪個模式");
        assert(w.len() == 7);
        assert(w[0] == '現');
        assert(w[1] == '在');
        assert(w[2] == '用');
        assert(w[3] == '哪');
        assert(w[4] == '個');
        assert(w[5] == '模');
        assert(w[6] == '式');
    }
    if w == "目前用哪個模式"@ {
        reveal_strlit("目前用哪個模式");
        assert(w.len() == 7);
        assert(w[0] == '目');
        assert(w[1] == '前');
        assert(w[2] == '用');
        assert(w[3] == '哪');
        assert(w[4] == '個');
        assert(w[5] == '模');
        assert(w[6] == '式');
    }
    if w == "現在是哪個模式"@ {
        reveal_strlit("現在是哪個模式");
        assert(w.len() == 7);
        assert(w[0] == '現');
        assert(w[1] == '在');
        assert(w[2] == '是');
        assert(w[3] == '哪');
        assert(w[4] == '個');
        assert(w[5] == '模');
        assert(w[6] == '式');
    }
    if w == "目前是哪個模式"@ {
        reveal_strlit("目前是哪個模式");
        assert(w.len() == 7);
        assert(w[0] == '目');
        assert(w[1] == '前');
        assert(w[2] == '是');
        assert(w[3] == '哪');
        assert(w[4] == '個');
        assert(w[5] == '模');
        assert(w[6] == '式');
    }
    if w == "現在是什麼辨識模式"@ {
        reveal_strlit("現在是什麼辨識模式");
        assert(w.len() == 9);
        assert(w[0] == '現');
        assert(w[1] == '在');
        assert(w[2] == '是');
        assert(w[3] == '什');
        assert(w[4] == '麼');
        assert(w[5] == '辨');
        assert(w[6] == '識');
        assert(w[7] == '模');
        assert(w[8] == '式');
    }
    if w == "現在是什麼识别模式"@ {
        reveal_strlit("現在是什麼识别模式");
        assert(w.len() == 9);
        assert(w[0] == '現');
        assert(w[1] == '在');
        assert(w[2] == '是');
        assert(w[3] == '什');
        assert(w[4] == '麼');
        assert(w[5] == '识');
        assert(w[6] == '别');
        assert(w[7] == '模');
        assert(w[8] == '式');
    }
}

proof fn lemma_help_chars(w: Seq<char>)
    requires
        is_help(w),
    ensures
        w.len() > 0,
        all_fixed(w),
        w[0] == '幫',
{
    if w == "幫我"@ {
        reveal_strlit("幫我");
        assert(w.len() == 2);
        assert(w[0] == '幫');
        assert(w[1] == '我');
    }
    if w == "幫忙"@ {
        reveal_strlit("幫忙");
        assert(w.len() == 2);
        assert(w[0] == '幫');
        assert(w[1] == '忙');
    }
}

proof fn lemma_verb_chars(w: Seq<char>)
    requires
        is_verb(w),
    ensures
        w.len() > 0,
        all_fixed(w),
        w[0] == '切' || w[0] == '換' || w[0] == '改',
{
    if w == "切換到"@ {
        reveal_strlit("切換到");
        assert(w.len() == 3);
        assert(w[0] == '切');
        assert(w[1] == '換');
        assert(w[2] == '到');
    }
    if w == "切換成"@ {
        reveal_strlit("切換成");
        assert(w.len() == 3);
        assert(w[0] == '切');
        assert(w[1] == '換');
        assert(w[2] == '成');
    }
    if w == "切換為"@ {
        reveal_strlit("切換為");
        assert(w.len() == 3);
        assert(w[0] == '切');
        assert(w[1] == '換');
        assert(w[2] == '為');
    }
    if w == "切到"@ {
        reveal_strlit("切到");
        assert(w.len() == 2);
        assert(w[0] == '切');
        assert(w[1] == '到');
    }
    if w == "切成"@ {
        reveal_strlit("切成");
        assert(w.len() == 2);
        assert(w[0] == '切');
        assert(w[1] == '成');
    }
    if w == "換成"@ {
        reveal_strlit("換成");
        assert(w.len() == 2);
        assert(w[0] == '換');
        assert(w[1] == '成');
    }
    if w == "換到"@ {
        reveal_strlit("換到");
        assert(w.len() == 2);
        assert(w[0] == '換');
        assert(w[1] == '到');
    }
    if w == "改成"@ {
        reveal_strlit("改成");
        assert(w.len() == 2);
        assert(w[0] == '改');
        assert(w[1] == '成');
    }
    if w == "改用"@ {
        reveal_strlit("改用");
        assert(w.len() == 2);
        assert(w[0] == '改');
        assert(w[1] == '用');
    }
    if w == "切換"@ {
        reveal_strlit("切換");
        assert(w.len() == 2);
        assert(w[0] == '切');
        assert(w[1] == '換');
    }
}

proof fn lemma_mode_word_chars(w: Seq<char>)
    requires
        is_mode_word(w),
    ensures
        w.len() > 0,
        all_fixed(w),
        w == seq!['模', '式'],
{
    if w == "模式"@ {
        reveal_strlit("模式");
        assert(w.len() == 2);
        assert(w[0] == '模');
        assert(w[1] == '式');
    }
}

proof fn lemma_auto_word_chars(w: Seq<char>)
    requires
        is_auto_word(w),
    ensures
        w.len() > 0,
        all_fixed(w),
        w.last() != '式' && w.last() != '呢' && w.last() != '啊',
        w[0] != '到' && w[0] != '成' && w[0] != '為',
        w[0] == 'a' || w[0] == 'o' || w[0] == '自',
{
    if w == "auto"@ {
        reveal_strlit("auto");
        assert(w.len() == 4);
        assert(w[0] == 'a');
        assert(w[1] == 'u');
        assert(w[2] == 't');
        assert(w[3] == 'o');
    }
    if w == "otto"@ {
        reveal_strlit("otto");
        assert(w.len() == 4);
        assert(w[0] == 'o');
        assert(w[1] == 't');
        assert(w[2] == 't');
        assert(w[3] == 'o');
    }
    if w == "自動"@ {
        reveal_strlit("自動");
        assert(w.len() == 2);
        assert(w[0] == '自');
        assert(w[1] == '動');
    }
    if w == "自动"@ {
        reveal_strlit("自动");
        assert(w.len() == 2);
        assert(w[0] == '自');
        assert(w[1] == '动');
    }
}

proof fn lemma_groq_word_chars(w: Seq<char>)
    requires
        is_groq_word(w),
    ensures
        w.len() > 0,
        all_fixed(w),
        w.last() != '式' && w.last() != '呢' && w.last() != '啊',
        w[0] != '到' && w[0] != '成' && w[0] != '為',
        w[0] == 'g' || w[0] == '雲' || w[0] == '云' || w[0] == '線' || w[0] == '在',
{
    if w == "groq"@ {
        reveal_strlit("groq");
        assert(w.len() == 4);
        assert(w[0] == 'g');
        assert(w[1] == 'r');
        assert(w[2] == 'o');
        assert(w[3] == 'q');
    }
    if w == "grok"@ {
        reveal_strlit("grok");
        assert(w.len() == 4);
        assert(w[0] == 'g');
        assert(w[1] == 'r');
        assert(w[2] == 'o');
        assert(w[3] == 'k');
    }
    if w == "groque"@ {
        reveal_strlit("groque");
        assert(w.len() == 6);
        assert(w[0] == 'g');
        assert(w[1] == 'r');
        assert(w[2] == 'o');
        assert(w[3] == 'q');
        assert(w[4] == 'u');
        assert(w[5] == 'e');
    }
    if w == "雲端"@ {
        reveal_strlit("雲端");
        assert(w.len() == 2);
        assert(w[0] == '雲');
        assert(w[1] == '端');
    }
    if w == "云端"@ {
        reveal_strlit("云端");
        assert(w.len() == 2);
        assert(w[0] == '云');
        assert(w[1] == '端');
    }
    if w == "線上"@ {
        reveal_strlit("線上");
        assert(w.len() == 2);
        assert(w[0] == '線');
        assert(w[1] == '上');
    }
    if w == "在線"@ {
        reveal_strlit("在線");
        assert(w.len() == 2);
        assert(w[0] == '在');
        assert(w[1] == '線');
    }
    if w == "在綫"@ {
        reveal_strlit("在綫");
        assert(w.len() == 2);
        assert(w[0] == '在');
        assert(w[1] == '綫');
    }
}

proof fn lemma_local_word_chars(w: Seq<char>)
    requires
        is_local_word(w),
    ensures
        w.len() > 0,
        all_fixed(w),
        w.last() != '式' && w.last() != '呢' && w.last() != '啊',
        w[0] != '到' && w[0] != '成' && w[0] != '為',
        w[0] == 'l' || w[0] == '本' || w[0] == '離',
{
    if w == "local"@ {
        reveal_strlit("local");
        assert(w.len() == 5);
        assert(w[0] == 'l');
        assert(w[1] == 'o');
        assert(w[2] == 'c');
        assert(w[3] == 'a');
        assert(w[4] == 'l');
    }
    if w == "loko"@ {
        reveal_strlit("loko");
        assert(w.len() == 4);
        assert(w[0] == 'l');
        assert(w[1] == 'o');
        assert(w[2] == 'k');
        assert(w[3] == 'o');
    }
    if w == "本機"@ {
        reveal_strlit("本機");
        assert(w.len() == 2);
        assert(w[0] == '本');
        assert(w[1] == '機');
    }
    if w == "本机"@ {
        reveal_strlit("本机");
        assert(w.len() == 2);
        assert(w[0] == '本');
        assert(w[1] == '机');
    }
    if w == "本地"@ {
        reveal_strlit("本地");
        assert(w.len() == 2);
        assert(w[0] == '本');
        assert(w[1] == '地');
    }
    if w == "離線"@ {
        reveal_strlit("離線");
        assert(w.len() == 2);
        assert(w[0] == '離');
        assert(w[1] == '線');
    }
}

/// What each word for a mode means, and that no other word means one.
pub proof fn law_words_for_modes(w: Seq<char>, mode: Seq<char>)
    ensures
        mode_for(w) == Some(mode) <==> names_mode(w, mode),
        is_auto_word(w) ==> mode_for(w) == Some("auto"@),
        is_groq_word(w) ==> mode_for(w) == Some("groq"@),
        is_local_word(w) ==> mode_for(w) == Some("local"@),
        !is_auto_word(w) && !is_groq_word(w) && !is_local_word(w) ==> mode_for(w) is None,
{
    lemma_auto_words(w);
    lemma_groq_words(w);
    lemma_local_words(w);
    if is_auto_word(w) {
        lemma_auto_word_chars(w);
    }
    if is_groq_word(w) {
        lemma_groq_word_chars(w);
    }
    if is_local_word(w) {
        lemma_local_word_chars(w);
    }
}

// ---------------------------------------------------------------------------------------------
// Taking an utterance apart
// ---------------------------------------------------------------------------------------------

/// The first word of a list that a text begins with is taken off it.
proof fn lemma_after_prefix_at(s: Seq<char>, list: Seq<Seq<char>>, j: int)
    requires
        0 <= j < list.len(),
        starts_with(s, list[j]),
        forall|i: int| 0 <= i < j ==> !starts_with(s, #[trigger] list[i]),
    ensures
        after_prefix(s, list) == Some(s.skip(list[j].len() as int)),
    decreases j,
{
    if j > 0 {
        let rest = list.drop_first();
        assert(!starts_with(s, list[0]));
        assert forall|i: int| 0 <= i < j - 1 implies !starts_with(s, #[trigger] rest[i]) by {
            assert(!starts_with(s, list[i + 1]));
        }
        assert(rest[j - 1] == list[j]);
        lemma_after_prefix_at(s, rest, j - 1);
    }
}

proof fn lemma_before_suffix_at(s: Seq<char>, list: Seq<Seq<char>>, j: int)
    requires
        0 <= j < list.len(),
        ends_with(s, list[j]),
        forall|i: int| 0 <= i < j ==> !ends_with(s, #[trigger] list[i]),
    ensures
        before_suffix(s, list) == Some(s.take(s.len() - list[j].len())),
    decreases j,
{
    if j > 0 {
        let rest = list.drop_first();
        assert(!ends_with(s, list[0]));
        assert forall|i: int| 0 <= i < j - 1 implies !ends_with(s, #[trigger] rest[i]) by {
            assert(!ends_with(s, list[i + 1]));
        }
        assert(rest[j - 1] == list[j]);
        lemma_before_suffix_at(s, rest, j - 1);
    }
}

/// A text does not begin with a word that has another character somewhere.
proof fn lemma_other_character(s: Seq<char>, w: Seq<char>, k: int)
    requires
        0 <= k < w.len(),
        k < s.len(),
        s[k] != w[k],
    ensures
        !starts_with(s, w),
{
    if starts_with(s, w) {
        assert(s.take(w.len() as int)[k] == w[k]);
    }
}

proof fn lemma_begins(w: Seq<char>, t: Seq<char>)
    ensures
        starts_with(w + t, w),
        (w + t).skip(w.len() as int) == t,
{
    assert((w + t).take(w.len() as int) =~= w);
    assert((w + t).skip(w.len() as int) =~= t);
}

proof fn lemma_greeting_goes(w: Seq<char>, t: Seq<char>)
    requires
        is_greeting(w),
        t.len() > 0,
    ensures
        after_prefix(w + t, greetings()) == Some(t),
{
    let s = w + t;
    let list = greetings();
    lemma_begins(w, t);
    assert(list.len() == 2);
    reveal_strlit("hey");
    reveal_strlit("嘿");
    assert(list[0] == "hey"@);
    assert(list[1] == "嘿"@);
    if w == "hey"@ {
        lemma_after_prefix_at(s, list, 0);
    }
    if w == "嘿"@ {
        assert(s[0] == '嘿' && list[0][0] == 'h');
        lemma_other_character(s, list[0], 0);
        lemma_after_prefix_at(s, list, 1);
    }
}

proof fn lemma_courtesy_goes(w: Seq<char>, t: Seq<char>)
    requires
        is_courtesy(w),
        t.len() > 0,
        t[0] != '問',
    ensures
        after_prefix(w + t, courtesies()) == Some(t),
{
    let s = w + t;
    let list = courtesies();
    lemma_begins(w, t);
    assert(list.len() == 2);
    reveal_strlit("請問");
    reveal_strlit("請");
    assert(list[0] == "請問"@);
    assert(list[1] == "請"@);
    if w == "請問"@ {
        lemma_after_prefix_at(s, list, 0);
    }
    if w == "請"@ {
        assert(s[1] == t[0] && list[0][1] == '問');
        lemma_other_character(s, list[0], 1);
        lemma_after_prefix_at(s, list, 1);
    }
}

proof fn lemma_help_goes(w: Seq<char>, t: Seq<char>)
    requires
        is_help(w),
        t.len() > 0,
    ensures
        after_prefix(w + t, helps()) == Some(t),
{
    let s = w + t;
    let list = helps();
    lemma_begins(w, t);
    assert(list.len() == 2);
    reveal_strlit("幫我");
    reveal_strlit("幫忙");
    assert(list[0] == "幫我"@);
    assert(list[1] == "幫忙"@);
    if w == "幫我"@ {
        lemma_after_prefix_at(s, list, 0);
    }
    if w == "幫忙"@ {
        assert(s[1] == '忙' && list[0][1] == '我');
        lemma_other_character(s, list[0], 1);
        lemma_after_prefix_at(s, list, 1);
    }
}

proof fn lemma_pronoun_goes(w: Seq<char>, t: Seq<char>)
    requires
        is_pronoun(w),
        t.len() > 0,
    ensures
        after_prefix(w + t, pronouns()) == Some(t),
{
    let s = w + t;
    let list = pronouns();
    lemma_begins(w, t);
    assert(list.len() == 1);
    reveal_strlit("你");
    assert(list[0] == "你"@);
    if w == "你"@ {
        lemma_after_prefix_at(s, list, 0);
    }
}

proof fn lemma_verb_goes(w: Seq<char>, t: Seq<char>)
    requires
        is_verb(w),
        t.len() > 0,
        t[0] != '到',
        t[0] != '成',
        t[0] != '為',
    ensures
        after_prefix(w + t, verbs()) == Some(t),
{
    let s = w + t;
    let list = verbs();
    lemma_begins(w, t);
    assert(list.len() == 10);
    reveal_strlit("切換到");
    reveal_strlit("切換成");
    reveal_strlit("切換為");
    reveal_strlit("切到");
    reveal_strlit("切成");
    reveal_strlit("換成");
    reveal_strlit("換到");
    reveal_strlit("改成");
    reveal_strlit("改用");
    reveal_strlit("切換");
    assert(list[0] == "切換到"@);
    assert(list[1] == "切換成"@);
    assert(list[2] == "切換為"@);
    assert(list[3] == "切到"@);
    assert(list[4] == "切成"@);
    assert(list[5] == "換成"@);
    assert(list[6] == "換到"@);
    assert(list[7] == "改成"@);
    assert(list[8] == "改用"@);
    assert(list[9] == "切換"@);
    if w == "切換到"@ {
        lemma_after_prefix_at(s, list, 0);
    }
    if w == "切換成"@ {
        assert(s[2] == '成' && list[0][2] == '到');
        lemma_other_character(s, list[0], 2);
        lemma_after_prefix_at(s, list, 1);
    }
    if w == "切換為"@ {
        assert(s[2] == '為' && list[0][2] == '到');
        lemma_other_character(s, list[0], 2);
        assert(s[2] == '為' && list[1][2] == '成');
        lemma_other_character(s, list[1], 2);
        lemma_after_prefix_at(s, list, 2);
    }
    if w == "切到"@ {
        assert(s[1] == '到' && list[0][1] == '換');
        lemma_other_character(s, list[0], 1);
        assert(s[1] == '到' && list[1][1] == '換');
        lemma_other_character(s, list[1], 1);
        assert(s[1] == '到' && list[2][1] == '換');
        lemma_other_character(s, list[2], 1);
        lemma_after_prefix_at(s, list, 3);
    }
    if w == "切成"@ {
        assert(s[1] == '成' && list[0][1] == '換');
        lemma_other_character(s, list[0], 1);
        assert(s[1] == '成' && list[1][1] == '換');
        lemma_other_character(s, list[1], 1);
        assert(s[1] == '成' && list[2][1] == '換');
        lemma_other_character(s, list[2], 1);
        assert(s[1] == '成' && list[3][1] == '到');
        lemma_other_character(s, list[3], 1);
        lemma_after_prefix_at(s, list, 4);
    }
    if w == "換成"@ {
        assert(s[0] == '換' && list[0][0] == '切');
        lemma_other_character(s, list[0], 0);
        assert(s[0] == '換' && list[1][0] == '切');
        lemma_other_character(s, list[1], 0);
        assert(s[0] == '換' && list[2][0] == '切');
        lemma_other_character(s, list[2], 0);
        assert(s[0] == '換' && list[3][0] == '切');
        lemma_other_character(s, list[3], 0);
        assert(s[0] == '換' && list[4][0] == '切');
        lemma_other_character(s, list[4], 0);
        lemma_after_prefix_at(s, list, 5);
    }
    if w == "換到"@ {
        assert(s[0] == '換' && list[0][0] == '切');
        lemma_other_character(s, list[0], 0);
        assert(s[0] == '換' && list[1][0] == '切');
        lemma_other_character(s, list[1], 0);
        assert(s[0] == '換' && list[2][0] == '切');
        lemma_other_character(s, list[2], 0);
        assert(s[0] == '換' && list[3][0] == '切');
        lemma_other_character(s, list[3], 0);
        assert(s[0] == '換' && list[4][0] == '切');
        lemma_other_character(s, list[4], 0);
        assert(s[1] == '到' && list[5][1] == '成');
        lemma_other_character(s, list[5], 1);
        lemma_after_prefix_at(s, list, 6);
    }
    if w == "改成"@ {
        assert(s[0] == '改' && list[0][0] == '切');
        lemma_other_character(s, list[0], 0);
        assert(s[0] == '改' && list[1][0] == '切');
        lemma_other_character(s, list[1], 0);
        assert(s[0] == '改' && list[2][0] == '切');
        lemma_other_character(s, list[2], 0);
        assert(s[0] == '改' && list[3][0] == '切');
        lemma_other_character(s, list[3], 0);
        assert(s[0] == '改' && list[4][0] == '切');
        lemma_other_character(s, list[4], 0);
        assert(s[0] == '改' && list[5][0] == '換');
        lemma_other_character(s, list[5], 0);
        assert(s[0] == '改' && list[6][0] == '換');
        lemma_other_character(s, list[6], 0);
        lemma_after_prefix_at(s, list, 7);
    }
    if w == "改用"@ {
        assert(s[0] == '改' && list[0][0] == '切');
        lemma_other_character(s, list[0], 0);
        assert(s[0] == '改' && list[1][0] == '切');
        lemma_other_character(s, list[1], 0);
        assert(s[0] == '改' && list[2][0] == '切');
        lemma_other_character(s, list[2], 0);
        assert(s[0] == '改' && list[3][0] == '切');
        lemma_other_character(s, list[3], 0);
        assert(s[0] == '改' && list[4][0] == '切');
        lemma_other_character(s, list[4], 0);
        assert(s[0] == '改' && list[5][0] == '換');
        lemma_other_character(s, list[5], 0);
        assert(s[0] == '改' && list[6][0] == '換');
        lemma_other_character(s, list[6], 0);
        assert(s[1] == '用' && list[7][1] == '成');
        lemma_other_character(s, list[7], 1);
        lemma_after_prefix_at(s, list, 8);
    }
    if w == "切換"@ {
        assert(s[2] == t[0] && list[0][2] == '到');
        lemma_other_character(s, list[0], 2);
        assert(s[2] == t[0] && list[1][2] == '成');
        lemma_other_character(s, list[1], 2);
        assert(s[2] == t[0] && list[2][2] == '為');
        lemma_other_character(s, list[2], 2);
        assert(s[1] == '換' && list[3][1] == '到');
        lemma_other_character(s, list[3], 1);
        assert(s[1] == '換' && list[4][1] == '成');
        lemma_other_character(s, list[4], 1);
        assert(s[0] == '切' && list[5][0] == '換');
        lemma_other_character(s, list[5], 0);
        assert(s[0] == '切' && list[6][0] == '換');
        lemma_other_character(s, list[6], 0);
        assert(s[0] == '切' && list[7][0] == '改');
        lemma_other_character(s, list[7], 0);
        assert(s[0] == '切' && list[8][0] == '改');
        lemma_other_character(s, list[8], 0);
        lemma_after_prefix_at(s, list, 9);
    }
}

/// A closing particle is taken off.
proof fn lemma_particle_goes(x: Seq<char>, p: Seq<char>)
    requires
        is_or_empty(p, is_particle(p)),
        x.len() > 0,
        x.last() != '呢' && x.last() != '啊',
    ensures
        without_suffix(x + p, particles()) == x,
{
    let s = x + p;
    let list = particles();
    reveal_strlit("呢");
    reveal_strlit("啊");
    assert(list.len() == 2);
    assert(list[0] == "呢"@ && list[1] == "啊"@);
    assert(list[0].len() == 1 && list[0][0] == '呢' && list[1].len() == 1 && list[1][0] == '啊');
    if p.len() == 0 {
        assert(s =~= x);
        lemma_no_suffix(s, list);
    } else {
        assert(s.skip(s.len() - 1) =~= p);
        assert(s.take(s.len() - 1) =~= x);
        if p == "呢"@ {
            lemma_before_suffix_at(s, list, 0);
        } else {
            assert(!ends_with(s, list[0])) by {
                if ends_with(s, list[0]) {
                    assert(s.skip(s.len() - 1)[0] == '呢');
                    assert(p[0] == '啊');
                }
            }
            lemma_before_suffix_at(s, list, 1);
        }
    }
}

/// The word "mode" after a word is taken off.
proof fn lemma_mode_word_goes(w: Seq<char>, m: Seq<char>)
    requires
        is_or_empty(m, is_mode_word(m)),
        w.len() > 0,
        w.last() != '式',
    ensures
        without_suffix(w + m, mode_words()) == w,
{
    let s = w + m;
    let list = mode_words();
    reveal_strlit("模式");
    assert(list.len() == 1);
    assert(list[0] == "模式"@);
    assert(list[0].len() == 2 && list[0][1] == '式');
    if m.len() == 0 {
        assert(s =~= w);
        lemma_no_suffix(s, list);
    } else {
        assert(s.skip(s.len() - 2) =~= m);
        assert(s.take(s.len() - 2) =~= w);
        lemma_before_suffix_at(s, list, 0);
    }
}

/// The name that an utterance begins with is heard, and no longer one.
proof fn lemma_name_is_heard(n: Seq<char>, t: Seq<char>)
    requires
        is_or_empty(n, is_name(n)),
        t.len() > 0,
        opens(t[0]),
    ensures
        longest_prefix(n + t, names()) == n.len(),
        (n + t).skip(n.len() as int) == t,
{
    let s = n + t;
    let list = names();
    lemma_begins(n, t);
    assert forall|i: int| 0 <= i < list.len() && starts_with(s, #[trigger] list[i]) implies list[i].len()
        <= n.len() by {
        let w = list[i];
        assert(list.contains(w));
        lemma_names(w);
        lemma_name_chars(w);
        if w.len() > n.len() {
            let k = n.len() as int;
            assert(s.take(w.len() as int)[k] == w[k]);
            assert(s[k] == t[0]);
        }
    }
    lemma_longest_is_at_most(s, list, n.len());
    if n.len() > 0 {
        lemma_names(n);
        law_longest_name_is_heard(s, list, n);
    }
}

/// A greeting before a name or before what is asked is taken off.
proof fn lemma_greeting_is_heard(g: Seq<char>, t: Seq<char>)
    requires
        is_or_empty(g, is_greeting(g)),
        t.len() > 0,
        t[0] != 'h' && t[0] != '嘿',
    ensures
        without_prefix(g + t, greetings()) == t,
{
    if g.len() > 0 {
        lemma_greeting_goes(g, t);
    } else {
        assert(g + t =~= t);
        let list = greetings();
        assert forall|i: int| 0 <= i < list.len() implies (#[trigger] list[i]).len() > 0 && list[i][0]
            != t[0] by {
            assert(list.contains(list[i]));
            lemma_greetings(list[i]);
            lemma_greeting_chars(list[i]);
        }
        lemma_no_prefix(t, list);
    }
}

proof fn lemma_courtesy_is_heard(c: Seq<char>, t: Seq<char>)
    requires
        is_or_empty(c, is_courtesy(c)),
        t.len() > 0,
        t[0] != '請' && t[0] != '問',
    ensures
        without_prefix(c + t, courtesies()) == t,
{
    if c.len() > 0 {
        lemma_courtesy_goes(c, t);
    } else {
        assert(c + t =~= t);
        let list = courtesies();
        assert forall|i: int| 0 <= i < list.len() implies (#[trigger] list[i]).len() > 0 && list[i][0]
            != t[0] by {
            assert(list.contains(list[i]));
            lemma_courtesies(list[i]);
            lemma_courtesy_chars(list[i]);
        }
        lemma_no_prefix(t, list);
    }
}

proof fn lemma_help_is_heard(h: Seq<char>, t: Seq<char>)
    requires
        is_or_empty(h, is_help(h)),
        t.len() > 0,
        t[0] != '幫',
    ensures
        without_prefix(h + t, helps()) == t,
{
    if h.len() > 0 {
        lemma_help_goes(h, t);
    } else {
        assert(h + t =~= t);
        let list = helps();
        assert forall|i: int| 0 <= i < list.len() implies (#[trigger] list[i]).len() > 0 && list[i][0]
            != t[0] by {
            assert(list.contains(list[i]));
            lemma_helps(list[i]);
            lemma_help_chars(list[i]);
        }
        lemma_no_prefix(t, list);
    }
}

proof fn lemma_pronoun_is_heard(p: Seq<char>, t: Seq<char>)
    requires
        is_or_empty(p, is_pronoun(p)),
        t.len() > 0,
        t[0] != '你',
    ensures
        without_prefix(p + t, pronouns()) == t,
{
    if p.len() > 0 {
        lemma_pronoun_goes(p, t);
    } else {
        assert(p + t =~= t);
        let list = pronouns();
        assert forall|i: int| 0 <= i < list.len() implies (#[trigger] list[i]).len() > 0 && list[i][0]
            != t[0] by {
            assert(list.contains(list[i]));
            lemma_pronouns(list[i]);
            lemma_pronoun_chars(list[i]);
        }
        lemma_no_prefix(t, list);
    }
}

// ---------------------------------------------------------------------------------------------
// Orders
// ---------------------------------------------------------------------------------------------

/// Whether the parts of an order are words that are meant so, and its word names the mode. Greeting,
/// courtesy, plea, the word "mode" and particle may be left out; the name, the verb and the word for
/// the mode may not.
pub open spec fn orders(o: Order, mode: Seq<char>) -> bool {
    &&& is_or_empty(o.greeting, is_greeting(o.greeting))
    &&& is_name(o.name)
    &&& is_or_empty(o.courtesy, is_courtesy(o.courtesy))
    &&& is_or_empty(o.help, is_help(o.help))
    &&& is_verb(o.verb)
    &&& names_mode(o.word, mode)
    &&& is_or_empty(o.mode_word, is_mode_word(o.mode_word))
    &&& is_or_empty(o.particle, is_particle(o.particle))
}

/// The end of an order, after the name and the courtesy.
proof fn lemma_rest_of_order(h: Seq<char>, v: Seq<char>, w: Seq<char>, m: Seq<char>, p: Seq<char>, mode: Seq<char>)
    requires
        is_or_empty(h, is_help(h)),
        is_verb(v),
        names_mode(w, mode),
        is_or_empty(m, is_mode_word(m)),
        is_or_empty(p, is_particle(p)),
    ensures
        ({
            let x = h + (v + (w + m));
            &&& x.len() > 0
            &&& x[0] == '幫' || x[0] == '切' || x[0] == '換' || x[0] == '改'
            &&& without_suffix(x + p, particles()) == x
            &&& after_prefix(without_prefix(x, helps()), verbs()) == Some(w + m)
            &&& mode_for(without_suffix(w + m, mode_words())) == Some(mode)
        }),
{
    let x = h + (v + (w + m));
    lemma_word_chars(w, mode);
    lemma_verb_chars(v);
    if h.len() > 0 {
        lemma_help_chars(h);
        assert(x[0] == h[0]);
    } else {
        assert(x =~= v + (w + m));
        assert(x[0] == v[0]);
    }
    if m.len() > 0 {
        lemma_mode_word_chars(m);
        assert(x.last() == m.last());
    } else {
        assert(x.last() == w.last());
    }
    lemma_particle_goes(x, p);
    assert((v + (w + m))[0] == v[0]);
    lemma_help_is_heard(h, v + (w + m));
    assert((w + m)[0] == w[0]);
    lemma_verb_goes(v, w + m);
    lemma_mode_word_goes(w, m);
    law_words_for_modes(w, mode);
}

proof fn lemma_word_chars(w: Seq<char>, mode: Seq<char>)
    requires
        names_mode(w, mode),
    ensures
        w.len() > 0,
        all_fixed(w),
        w.last() != '式' && w.last() != '呢' && w.last() != '啊',
        w[0] != '到' && w[0] != '成' && w[0] != '為',
{
    if is_auto_word(w) {
        lemma_auto_word_chars(w);
    } else if is_groq_word(w) {
        lemma_groq_word_chars(w);
    } else {
        lemma_local_word_chars(w);
    }
}

/// What stands before what is asked is taken off: the greeting, the name and the courtesy.
proof fn lemma_opening_goes(g: Seq<char>, n: Seq<char>, c: Seq<char>, t: Seq<char>)
    requires
        is_or_empty(g, is_greeting(g)),
        is_or_empty(n, is_name(n)),
        is_or_empty(c, is_courtesy(c)),
        t.len() > 0,
        opens(t[0]),
        t[0] != '請',
    ensures
        request_in(g + (n + (c + t))) == without_suffix(t, particles()),
        is_addressed(g + (n + (c + t))) <==> n.len() > 0,
{
    let t3 = c + t;
    let t2 = n + t3;
    lemma_first_character(c, t);
    lemma_first_character(n, t3);
    if c.len() > 0 {
        lemma_courtesy_chars(c);
    }
    if n.len() > 0 {
        lemma_name_chars(n);
    }
    lemma_greeting_is_heard(g, t2);
    lemma_name_is_heard(n, t3);
    lemma_courtesy_is_heard(c, t);
}

proof fn lemma_first_character(a: Seq<char>, b: Seq<char>)
    requires
        a.len() > 0 || b.len() > 0,
    ensures
        (a + b).len() > 0,
        (a + b)[0] == if a.len() > 0 {
            a[0]
        } else {
            b[0]
        },
{
}

/// The parts of an order, put together from the end.
proof fn lemma_said_from_the_end(o: Order)
    ensures
        said(o) == o.greeting + (o.name + (o.courtesy + ((o.help + (o.verb + (o.word
            + o.mode_word))) + o.particle))),
{
    assert(said(o) =~= o.greeting + (o.name + (o.courtesy + ((o.help + (o.verb + (o.word
        + o.mode_word))) + o.particle))));
}

/// What begins as an order does is no question.
proof fn lemma_no_question(x: Seq<char>)
    requires
        x.len() > 0,
        x[0] == '幫' || x[0] == '切' || x[0] == '換' || x[0] == '改',
    ensures
        !questions().contains(without_prefix(x, pronouns())),
{
    let list = pronouns();
    assert forall|i: int| 0 <= i < list.len() implies (#[trigger] list[i]).len() > 0 && list[i][0]
        != x[0] by {
        assert(list.contains(list[i]));
        lemma_pronouns(list[i]);
        lemma_pronoun_chars(list[i]);
    }
    lemma_no_prefix(x, list);
    lemma_questions(x);
    if is_question(x) {
        lemma_question_chars(x);
    }
}

proof fn lemma_order_is_heard(o: Order, mode: Seq<char>)
    requires
        orders(o, mode),
    ensures
        command_in(said(o)) == Some(Meaning::Switch(mode)),
{
    let x = o.help + (o.verb + (o.word + o.mode_word));
    lemma_said_from_the_end(o);
    lemma_rest_of_order(o.help, o.verb, o.word, o.mode_word, o.particle, mode);
    lemma_first_character(x, o.particle);
    lemma_opening_goes(o.greeting, o.name, o.courtesy, x + o.particle);
    lemma_not_empty(o.name);
    lemma_no_question(x);
    lemma_switches(said(o), x, o.word + o.mode_word, mode);
}

proof fn lemma_not_empty(n: Seq<char>)
    requires
        is_name(n),
    ensures
        n.len() > 0,
{
    lemma_name_chars(n);
}

/// The command that a request to switch is.
proof fn lemma_switches(s: Seq<char>, x: Seq<char>, t: Seq<char>, mode: Seq<char>)
    requires
        request_in(s) == x,
        is_addressed(s),
        !questions().contains(without_prefix(x, pronouns())),
        after_prefix(without_prefix(x, helps()), verbs()) == Some(t),
        mode_for(without_suffix(t, mode_words())) == Some(mode),
    ensures
        command_in(s) == Some(Meaning::Switch(mode)),
{
}

/// What is written as it is said is said so.
proof fn lemma_fixed_is_said(text: Seq<char>)
    requires
        all_fixed(text),
    ensures
        spoken(lowered(text)) == text,
{
    assert(is_plain_text(text));
    lemma_lowered_plain(text);
    assert(ascii_lowered(text) =~= text);
    lemma_said_as_it_stands(text);
}

proof fn lemma_fixed_add(a: Seq<char>, b: Seq<char>)
    requires
        all_fixed(a),
        all_fixed(b),
    ensures
        all_fixed(a + b),
{
}

/// Every order is understood: a name, a verb and a word for a mode, with the words that may stand
/// between and round them, switch to that mode.
pub proof fn law_orders_are_understood(o: Order, mode: Seq<char>, text: &str, r: Option<Command>)
    requires
        orders(o, mode),
        text@ == said(o),
        call_ensures(parse, (text,), r),
    ensures
        r matches Some(Command::Switch(m)) && m@ == mode,
{
    lemma_order_is_heard(o, mode);
    lemma_name_chars(o.name);
    lemma_verb_chars(o.verb);
    lemma_word_chars(o.word, mode);
    if o.greeting.len() > 0 {
        lemma_greeting_chars(o.greeting);
    }
    if o.courtesy.len() > 0 {
        lemma_courtesy_chars(o.courtesy);
    }
    if o.help.len() > 0 {
        lemma_help_chars(o.help);
    }
    if o.mode_word.len() > 0 {
        lemma_mode_word_chars(o.mode_word);
    }
    if o.particle.len() > 0 {
        lemma_particle_chars(o.particle);
    }
    let a = o.greeting + o.name;
    let b = a + o.courtesy;
    let c = b + o.help;
    let d = c + o.verb;
    let e = d + o.word;
    let f = e + o.mode_word;
    lemma_fixed_add(o.greeting, o.name);
    lemma_fixed_add(a, o.courtesy);
    lemma_fixed_add(b, o.help);
    lemma_fixed_add(c, o.verb);
    lemma_fixed_add(d, o.word);
    lemma_fixed_add(e, o.mode_word);
    lemma_fixed_add(f, o.particle);
    lemma_fixed_is_said(text@);
}

/// Nothing else is an order: whatever switches the mode is said in such words, one after the other,
/// and the mode is the one that its word names.
pub proof fn law_nothing_else_is_an_order(text: &str, mode: &'static str)
    requires
        call_ensures(parse, (text,), Some(Command::Switch(mode))),
    ensures
        exists|o: Order| #[trigger] orders(o, mode@) && said(o) == spoken(lowered(text@)),
{
    let s = spoken(lowered(text@));
    assert(command_in(s) == Some(Meaning::Switch(mode@)));
    law_switch_is_a_whole_addressed_order(s, mode@);
    let o = choose|o: Order| is_order(o, mode@) && said(o) == s;
    lemma_greetings(o.greeting);
    lemma_names(o.name);
    lemma_courtesies(o.courtesy);
    lemma_helps(o.help);
    lemma_verbs(o.verb);
    lemma_mode_words(o.mode_word);
    lemma_particles(o.particle);
    law_words_for_modes(o.word, mode@);
    assert(orders(o, mode@));
}

// ---------------------------------------------------------------------------------------------
// Questions
// ---------------------------------------------------------------------------------------------

/// The parts of a question, in the order in which they are said.
pub struct Inquiry {
    pub greeting: Seq<char>,
    pub name: Seq<char>,
    pub courtesy: Seq<char>,
    pub pronoun: Seq<char>,
    pub question: Seq<char>,
    pub particle: Seq<char>,
}

/// Whether the parts of a question are words that are meant so. All but the question itself may be
/// left out.
pub open spec fn inquires(q: Inquiry) -> bool {
    &&& is_or_empty(q.greeting, is_greeting(q.greeting))
    &&& is_or_empty(q.name, is_name(q.name))
    &&& is_or_empty(q.courtesy, is_courtesy(q.courtesy))
    &&& is_or_empty(q.pronoun, is_pronoun(q.pronoun))
    &&& is_question(q.question)
    &&& is_or_empty(q.particle, is_particle(q.particle))
}

/// The characters of a question.
pub open spec fn asked(q: Inquiry) -> Seq<char> {
    q.greeting + q.name + q.courtesy + q.pronoun + q.question + q.particle
}

/// Every question about the mode is understood, whether Mori is called by name or not, with the
/// words that may stand before it and after it; and so it is in a text that was cleaned up.
pub proof fn law_questions_are_understood(
    q: Inquiry,
    text: &str,
    r: Option<Command>,
    s: Option<Command>,
)
    requires
        inquires(q),
        text@ == asked(q),
        call_ensures(parse, (text,), r),
        call_ensures(status_after_cleanup, (text,), s),
    ensures
        r == Some(Command::Status),
        s == Some(Command::Status),
{
    lemma_question_is_heard(
        q.greeting,
        q.name,
        q.courtesy,
        q.pronoun,
        q.question,
        q.particle,
    );
    lemma_question_is_fixed(
        q.greeting,
        q.name,
        q.courtesy,
        q.pronoun,
        q.question,
        q.particle,
    );
    lemma_fixed_is_said(text@);
    assert(command_of(text@) == Some(Meaning::Status));
}

/// Nothing else is a question: whatever asks for the mode is said in such words, one after the
/// other. A text that was cleaned up asks at most for the mode, and only in them.
pub proof fn law_nothing_else_is_a_question(text: &str, r: Option<Command>, s: Option<Command>)
    requires
        call_ensures(parse, (text,), r),
        call_ensures(status_after_cleanup, (text,), s),
    ensures
        r == Some(Command::Status) ==> exists|q: Inquiry| #[trigger]
            inquires(q) && asked(q) == spoken(lowered(text@)),
        s is Some ==> s == Some(Command::Status) && r == Some(Command::Status),
{
    if r == Some(Command::Status) {
        let said = spoken(lowered(text@));
        assert(command_in(said) == Some(Meaning::Status));
        lemma_status_is_asked(said);
    }
}

proof fn lemma_status_is_asked(s: Seq<char>)
    requires
        command_in(s) == Some(Meaning::Status),
    ensures
        exists|q: Inquiry| #[trigger] inquires(q) && asked(q) == s,
{
    let greeting = lemma_without_prefix(s, greetings());
    let a = without_prefix(s, greetings());
    let n = longest_prefix(a, names());
    let name = if n > 0 {
        lemma_longest_prefix(a, names())
    } else {
        Seq::<char>::empty()
    };
    let b = a.skip(n as int);
    if n == 0 {
        assert(a =~= name + b);
    }
    let courtesy = lemma_without_prefix(b, courtesies());
    let c = without_prefix(b, courtesies());
    let particle = lemma_without_suffix(c, particles());
    let d = without_suffix(c, particles());
    let pronoun = lemma_without_prefix(d, pronouns());
    let question = without_prefix(d, pronouns());
    let q = Inquiry { greeting, name, courtesy, pronoun, question, particle };
    lemma_asked_from_the_end(greeting, name, courtesy, pronoun, question, particle);
    assert(asked(q) == s);
    lemma_greetings(greeting);
    lemma_names(name);
    lemma_courtesies(courtesy);
    lemma_pronouns(pronoun);
    lemma_questions(question);
    lemma_particles(particle);
    assert(inquires(q));
}

proof fn lemma_question_is_heard(
    g: Seq<char>,
    n: Seq<char>,
    c: Seq<char>,
    p: Seq<char>,
    q: Seq<char>,
    a: Seq<char>,
)
    requires
        is_or_empty(g, is_greeting(g)),
        is_or_empty(n, is_name(n)),
        is_or_empty(c, is_courtesy(c)),
        is_or_empty(p, is_pronoun(p)),
        is_question(q),
        is_or_empty(a, is_particle(a)),
    ensures
        command_in(g + n + c + p + q + a) == Some(Meaning::Status),
{
    let x = p + q;
    lemma_asked_from_the_end(g, n, c, p, q, a);
    lemma_rest_of_question(p, q, a);
    lemma_first_character(x, a);
    lemma_opening_goes(g, n, c, x + a);
    lemma_questions(q);
    lemma_asks(g + n + c + p + q + a, x, q);
}

proof fn lemma_asked_from_the_end(
    g: Seq<char>,
    n: Seq<char>,
    c: Seq<char>,
    p: Seq<char>,
    q: Seq<char>,
    a: Seq<char>,
)
    ensures
        g + n + c + p + q + a == g + (n + (c + ((p + q) + a))),
{
    assert(g + n + c + p + q + a =~= g + (n + (c + ((p + q) + a))));
}

/// The command that a question is.
proof fn lemma_asks(s: Seq<char>, x: Seq<char>, q: Seq<char>)
    requires
        request_in(s) == x,
        without_prefix(x, pronouns()) == q,
        questions().contains(q),
    ensures
        command_in(s) == Some(Meaning::Status),
{
}

proof fn lemma_rest_of_question(p: Seq<char>, q: Seq<char>, a: Seq<char>)
    requires
        is_or_empty(p, is_pronoun(p)),
        is_question(q),
        is_or_empty(a, is_particle(a)),
    ensures
        (p + q).len() > 0,
        opens((p + q)[0]) && (p + q)[0] != '請',
        without_suffix(p + q + a, particles()) == p + q,
        without_prefix(p + q, pronouns()) == q,
{
    lemma_question_chars(q);
    lemma_first_character(p, q);
    if p.len() > 0 {
        lemma_pronoun_chars(p);
    }
    assert((p + q).last() == q.last());
    lemma_particle_goes(p + q, a);
    lemma_pronoun_is_heard(p, q);
}

proof fn lemma_question_is_fixed(
    g: Seq<char>,
    n: Seq<char>,
    c: Seq<char>,
    p: Seq<char>,
    q: Seq<char>,
    a: Seq<char>,
)
    requires
        is_or_empty(g, is_greeting(g)),
        is_or_empty(n, is_name(n)),
        is_or_empty(c, is_courtesy(c)),
        is_or_empty(p, is_pronoun(p)),
        is_question(q),
        is_or_empty(a, is_particle(a)),
    ensures
        all_fixed(g + n + c + p + q + a),
{
    lemma_question_chars(q);
    if g.len() > 0 {
        lemma_greeting_chars(g);
    }
    if n.len() > 0 {
        lemma_name_chars(n);
    }
    if c.len() > 0 {
        lemma_courtesy_chars(c);
    }
    if p.len() > 0 {
        lemma_pronoun_chars(p);
    }
    if a.len() > 0 {
        lemma_particle_chars(a);
    }
    lemma_fixed_add(g, n);
    lemma_fixed_add(g + n, c);
    lemma_fixed_add(g + n + c, p);
    lemma_fixed_add(g + n + c + p, q);
    lemma_fixed_add(g + n + c + p + q, a);
}

} // verus!
