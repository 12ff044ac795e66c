//! Names of the files and directories of the local mirror, and the order in
//! which the articles of an issue are read back.

use vstd::prelude::*;
use vstd::string::*;
use crate::config::{join, join_path};
use crate::text::{
    chars_of, decimal, decimal_string, digit_value, lemma_decimal_denotes, parse_digits,
    parse_number, push_decimal,
};

verus! {

/// The position of the last dot in `name`, or -1 where it has none.
pub open spec fn last_dot(name: Seq<char>) -> int
    decreases name.len(),
{
    if name.len() == 0 {
        -1
    } else if name.last() == '.' {
        name.len() - 1
    } else {
        last_dot(name.drop_last())
    }
}

/// What follows the last dot of a file name. A name without a dot, or whose
/// only dot is its first character, has no extension.
pub open spec fn extension(name: Seq<char>) -> Option<Seq<char>> {
    let d = last_dot(name);
    if d > 0 {
        Some(name.subrange(d + 1, name.len() as int))
    } else {
        None
    }
}

/// The file name without its extension.
pub open spec fn file_stem(name: Seq<char>) -> Seq<char> {
    let d = last_dot(name);
    if d > 0 {
        name.subrange(0, d)
    } else {
        name
    }
}

/// Whether a file of this name holds an article: its extension is `txt`.
pub open spec fn is_article_name(name: Seq<char>) -> bool {
    extension(name) == Some("txt"@)
}

/// The number written in `s`: decimal digits, optionally after a plus sign.
pub open spec fn stem_number(s: Seq<char>) -> Option<u32> {
    if s.len() > 0 && s[0] == '+' {
        parse_number(s.skip(1))
    } else {
        parse_number(s)
    }
}

/// The position of a file among the articles of its issue: the number in its
/// stem, and the largest number for a stem that is none.
pub open spec fn article_key(name: Seq<char>) -> u32 {
    match stem_number(file_stem(name)) {
        Some(n) => n,
        None => u32::MAX,
    }
}

/// The name of the file that holds the article with this ordinal.
pub open spec fn article_file_name(ordinal: u32) -> Seq<char> {
    decimal(ordinal as nat) + ".txt"@
}

/// The name under which an article is written before it is moved into place.
pub open spec fn article_temp_name(ordinal: u32) -> Seq<char> {
    decimal(ordinal as nat) + ".txt.part"@
}

fn find_last_dot(chars: &Vec<char>) -> (d: Option<usize>)
    ensures
        match d {
            Some(i) => last_dot(chars@) == i && i < chars.len(),
            None => last_dot(chars@) == -1,
        },
{
    let mut j: usize = chars.len();
    proof {
        assert(chars@.subrange(0, j as int) =~= chars@);
    }
    while j > 0
        invariant
            j <= chars.len(),
            last_dot(chars@) == last_dot(chars@.subrange(0, j as int)),
        decreases j,
    {
        let ghost cur = chars@.subrange(0, j as int);
        proof {
            assert(cur.last() == chars@[j - 1]);
            assert(cur.drop_last() =~= chars@.subrange(0, j - 1));
        }
        if chars[j - 1] == '.' {
            return Some(j - 1);
        }
        j = j - 1;
    }
    proof {
        assert(chars@.subrange(0, 0).len() == 0);
    }
    None
}

/// Tells whether a file name is that of an article.
pub fn is_article_file(name: &str) -> (b: bool)
    ensures
        b == is_article_name(name@),
{
    let chars = chars_of(name);
    proof {
        reveal_strlit("txt");
    }
    match find_last_dot(&chars) {
        None => false,
        Some(d) => {
            if d == 0 {
                false
            } else if chars.len() - d != 4 {
                proof {
                    assert(chars@.subrange(d + 1, chars.len() as int).len() != 3);
                }
                false
            } else {
                let b = chars[d + 1] == 't' && chars[d + 2] == 'x' && chars[d + 3] == 't';
                proof {
                    let e = chars@.subrange(d + 1, chars.len() as int);
                    assert(e[0] == chars@[d + 1] && e[1] == chars@[d + 2] && e[2] == chars@[d + 3]);
                    if b {
                        assert(e =~= "txt"@);
                    }
                }
                b
            }
        },
    }
}

/// The position of a file among the articles of its issue.
pub fn article_number(name: &str) -> (key: u32)
    ensures
        key == article_key(name@),
{
    let chars = chars_of(name);
    let end: usize = match find_last_dot(&chars) {
        None => chars.len(),
        Some(d) => if d == 0 {
            chars.len()
        } else {
            d
        },
    };
    let ghost stem = chars@.subrange(0, end as int);
    proof {
        assert(stem =~= file_stem(name@));
    }
    let start: usize = if end > 0 && chars[0] == '+' {
        1
    } else {
        0
    };
    proof {
        assert(chars@.subrange(start as int, end as int) =~= if start == 1 {
            stem.skip(1)
        } else {
            stem
        });
    }
    match parse_digits(&chars, start, end) {
        Some(n) => n,
        None => u32::MAX,
    }
}

/// Where a name with key `key` goes in a list ordered by key: behind the last
/// name whose key is not greater.
pub open spec fn slot_for(names: Seq<Seq<char>>, key: u32) -> int
    decreases names.len(),
{
    if names.len() == 0 {
        0
    } else if article_key(names.last()) <= key {
        names.len() as int
    } else {
        slot_for(names.drop_last(), key)
    }
}

/// The article files among `names`, ordered by their number; files with the
/// same number keep the order in which they were given.
pub open spec fn ordered_articles(names: Seq<Seq<char>>) -> Seq<Seq<char>>
    decreases names.len(),
{
    if names.len() == 0 {
        Seq::empty()
    } else {
        let before = ordered_articles(names.drop_last());
        if is_article_name(names.last()) {
            before.insert(slot_for(before, article_key(names.last())), names.last())
        } else {
            before
        }
    }
}

/// Whether the keys of `names` never decrease.
pub open spec fn ordered_by_key(names: Seq<Seq<char>>) -> bool {
    forall|i: int, j: int|
        0 <= i <= j < names.len() ==> article_key(#[trigger] names[i]) <= article_key(
            #[trigger] names[j],
        )
}

/// The views of a list of strings.
pub open spec fn views(names: Seq<String>) -> Seq<Seq<char>> {
    names.map_values(|s: String| s@)
}

proof fn lemma_slot(names: Seq<Seq<char>>, key: u32)
    requires
        ordered_by_key(names),
    ensures
        0 <= slot_for(names, key) <= names.len(),
        forall|i: int| 0 <= i < slot_for(names, key) ==> article_key(#[trigger] names[i]) <= key,
        forall|i: int|
            slot_for(names, key) <= i < names.len() ==> article_key(#[trigger] names[i]) > key,
    decreases names.len(),
{
    if names.len() > 0 && article_key(names.last()) > key {
        let init = names.drop_last();
        assert forall|i: int, j: int| 0 <= i <= j < init.len() implies article_key(
            #[trigger] init[i],
        ) <= article_key(#[trigger] init[j]) by {
            assert(init[i] == names[i] && init[j] == names[j]);
        }
        lemma_slot(init, key);
        assert forall|i: int| 0 <= i < slot_for(names, key) implies article_key(
            #[trigger] names[i],
        ) <= key by {
            assert(names[i] == init[i]);
        }
        assert forall|i: int| slot_for(names, key) <= i < names.len() implies article_key(
            #[trigger] names[i],
        ) > key by {
            if i < init.len() {
                assert(names[i] == init[i]);
            }
        }
    } else if names.len() > 0 {
        assert forall|i: int| 0 <= i < names.len() implies article_key(#[trigger] names[i])
            <= key by {
            assert(article_key(names[i]) <= article_key(names[names.len() - 1]));
        }
    }
}

/// The ordered list holds article files only, each of them one of the names
/// given, and their numbers never decrease.
pub proof fn lemma_ordered_articles(names: Seq<Seq<char>>)
    ensures
        ordered_by_key(ordered_articles(names)),
        ordered_articles(names).len() <= names.len(),
        forall|i: int|
            0 <= i < ordered_articles(names).len() ==> is_article_name(
                #[trigger] ordered_articles(names)[i],
            ) && names.contains(ordered_articles(names)[i]),
        forall|k: int|
            0 <= k < names.len() && is_article_name(names[k]) ==> ordered_articles(
                names,
            ).contains(#[trigger] names[k]),
    decreases names.len(),
{
    if names.len() > 0 {
        let init = names.drop_last();
        let before = ordered_articles(init);
        let out = ordered_articles(names);
        lemma_ordered_articles(init);
        assert forall|i: int| 0 <= i < before.len() implies names.contains(
            #[trigger] before[i],
        ) by {
            let k = choose|k: int| 0 <= k < init.len() && init[k] == before[i];
            assert(names[k] == before[i]);
        }
        if is_article_name(names.last()) {
            let key = article_key(names.last());
            let p = slot_for(before, key);
            lemma_slot(before, key);
            assert(names[names.len() - 1] == names.last());
            assert forall|i: int, j: int| 0 <= i <= j < out.len() implies article_key(
                #[trigger] out[i],
            ) <= article_key(#[trigger] out[j]) by {
                let a = if i < p { i } else { i - 1 };
                let b = if j < p { j } else { j - 1 };
                if i != p {
                    assert(out[i] == before[a]);
                }
                if j != p {
                    assert(out[j] == before[b]);
                }
            }
            assert forall|i: int| 0 <= i < out.len() implies is_article_name(#[trigger] out[i])
                && names.contains(out[i]) by {
                if i < p {
                    assert(out[i] == before[i]);
                } else if i > p {
                    assert(out[i] == before[i - 1]);
                }
            }
            assert forall|k: int| 0 <= k < names.len() && is_article_name(
                names[k],
            ) implies out.contains(#[trigger] names[k]) by {
                if k == names.len() - 1 {
                    assert(out[p] == names[k]);
                } else {
                    assert(init[k] == names[k]);
                    let i = choose|i: int| 0 <= i < before.len() && before[i] == init[k];
                    if i < p {
                        assert(out[i] == before[i]);
                    } else {
                        assert(out[i + 1] == before[i]);
                    }
                }
            }
        } else {
            assert forall|k: int| 0 <= k < names.len() && is_article_name(
                names[k],
            ) implies out.contains(#[trigger] names[k]) by {
                assert(init[k] == names[k]);
            }
        }
    }
}

/// Picks the article files out of a directory listing and puts them in the
/// order in which they are read back.
pub fn order_articles(names: &Vec<String>) -> (articles: Vec<String>)
    ensures
        views(articles@) == ordered_articles(views(names@)),
{
    let mut articles: Vec<String> = Vec::new();
    let mut keys: Vec<u32> = Vec::new();
    let ghost all = views(names@);
    let mut i: usize = 0;
    assert(all.subrange(0, 0) =~= Seq::<Seq<char>>::empty());
    assert(views(articles@) =~= ordered_articles(all.subrange(0, 0)));
    while i < names.len()
        invariant
            i <= names.len(),
            all == views(names@),
            keys.len() == articles.len(),
            views(articles@) == ordered_articles(all.subrange(0, i as int)),
            forall|k: int| 0 <= k < keys.len() ==> keys[k] == article_key(#[trigger] articles[k]@),
        decreases names.len() - i,
    {
        let ghost before = views(articles@);
        let ghost upto = all.subrange(0, i + 1);
        proof {
            assert(upto.drop_last() =~= all.subrange(0, i as int));
            assert(upto.last() == names[i as int]@);
        }
        let name = &names[i];
        if is_article_file(name.as_str()) {
            let key = article_number(name.as_str());
            let mut j: usize = keys.len();
            proof {
                assert(before.subrange(0, j as int) =~= before);
            }
            while j > 0 && keys[j - 1] > key
                invariant
                    j <= keys.len(),
                    keys.len() == articles.len(),
                    before == views(articles@),
                    forall|k: int|
                        0 <= k < keys.len() ==> keys[k] == article_key(#[trigger] articles[k]@),
                    slot_for(before, key) == slot_for(before.subrange(0, j as int), key),
                decreases j,
            {
                proof {
                    let cur = before.subrange(0, j as int);
                    assert(cur.last() == articles[j - 1]@);
                    assert(cur.drop_last() =~= before.subrange(0, j - 1));
                }
                j = j - 1;
            }
            proof {
                let cur = before.subrange(0, j as int);
                if j > 0 {
                    assert(cur.last() == articles[j - 1]@);
                }
                assert(slot_for(before, key) == j);
            }
            keys.insert(j, key);
            articles.insert(j, name.clone());
            proof {
                assert(views(articles@) =~= before.insert(j as int, name@));
            }
        }
        i = i + 1;
    }
    proof {
        assert(all.subrange(0, names.len() as int) =~= all);
    }
    articles
}

/// Whether a directory with these entries counts as a mirrored issue: the
/// directory exists and holds at least one article file.
pub open spec fn mirrored(present: bool, entries: Seq<Seq<char>>) -> bool {
    present && (exists|k: int| 0 <= k < entries.len() && is_article_name(#[trigger] entries[k]))
}

/// Tells whether an issue is already mirrored, from whether its directory
/// exists and from the names of the files in it.
pub fn is_mirrored(present: bool, entries: &Vec<String>) -> (b: bool)
    ensures
        b == mirrored(present, views(entries@)),
{
    if !present {
        return false;
    }
    let mut i: usize = 0;
    while i < entries.len()
        invariant
            present,
            i <= entries.len(),
            forall|k: int| 0 <= k < i ==> !is_article_name(#[trigger] views(entries@)[k]),
        decreases entries.len() - i,
    {
        if is_article_file(entries[i].as_str()) {
            proof {
                let all = views(entries@);
                assert(all.len() == entries.len());
                assert(all[i as int] == entries[i as int]@);
                assert(is_article_name(all[i as int]));
            }
            return true;
        }
        i = i + 1;
    }
    false
}

/// The directory of an issue: its decimal number under the download root.
pub fn issue_dir(root: &str, issue: u32) -> (dir: String)
    ensures
        dir@ == join_path(root@, decimal(issue as nat)),
{
    let name = decimal_string(issue as u64);
    join(root, name.as_str())
}

/// The file name of the article with this ordinal.
pub fn article_file(ordinal: u32) -> (name: String)
    ensures
        name@ == article_file_name(ordinal),
{
    let mut name = String::new();
    push_decimal(&mut name, ordinal as u64);
    name.append(".txt");
    assert(name@ =~= article_file_name(ordinal));
    name
}

/// The name under which the article with this ordinal is written first; the
/// finished file is then renamed to its final name in the same directory.
pub fn article_temp_file(ordinal: u32) -> (name: String)
    ensures
        name@ == article_temp_name(ordinal),
{
    let mut name = String::new();
    push_decimal(&mut name, ordinal as u64);
    name.append(".txt.part");
    assert(name@ =~= article_temp_name(ordinal));
    name
}

proof fn lemma_last_dot_push(s: Seq<char>, c: char)
    ensures
        last_dot(s.push(c)) == if c == '.' {
            s.len() as int
        } else {
            last_dot(s)
        },
{
    assert(s.push(c).drop_last() =~= s);
}

/// The file of an article is found again under its ordinal: its name is that
/// of an article file and its number is the ordinal. The name under which the
/// article is written first is not that of an article file, so a file that
/// was never moved into place does not count as mirrored.
pub proof fn lemma_article_names(ordinal: u32)
    ensures
        is_article_name(article_file_name(ordinal)),
        article_key(article_file_name(ordinal)) == ordinal,
        !is_article_name(article_temp_name(ordinal)),
        article_temp_name(ordinal) != article_file_name(ordinal),
{
    let d = decimal(ordinal as nat);
    lemma_decimal_denotes(ordinal as nat);
    reveal_strlit(".txt");
    reveal_strlit(".txt.part");
    reveal_strlit("txt");
    let n = d.len() as int;
    let name = article_file_name(ordinal);
    assert(name =~= d.push('.').push('t').push('x').push('t'));
    lemma_last_dot_push(d, '.');
    lemma_last_dot_push(d.push('.'), 't');
    lemma_last_dot_push(d.push('.').push('t'), 'x');
    lemma_last_dot_push(d.push('.').push('t').push('x'), 't');
    assert(last_dot(name) == n);
    assert(name.subrange(n + 1, name.len() as int) =~= "txt"@);
    assert(file_stem(name) =~= d);
    assert(digit_value(d[0]) is Some);
    let temp = article_temp_name(ordinal);
    assert(temp =~= name.push('.').push('p').push('a').push('r').push('t'));
    lemma_last_dot_push(name, '.');
    lemma_last_dot_push(name.push('.'), 'p');
    lemma_last_dot_push(name.push('.').push('p'), 'a');
    lemma_last_dot_push(name.push('.').push('p').push('a'), 'r');
    lemma_last_dot_push(name.push('.').push('p').push('a').push('r'), 't');
    assert(last_dot(temp) == n + 4);
    assert(temp.subrange(n + 5, temp.len() as int).len() == 4);
    assert("txt"@.len() == 3);
    assert(temp.len() != name.len());
}

/// A directory that holds nothing but articles under their temporary names
/// does not count as mirrored: a write that was cut short leaves no trace that
/// would make a later run skip the issue.
pub proof fn lemma_partial_files_do_not_count(present: bool, ordinals: Seq<u32>)
    ensures
        !mirrored(present, Seq::new(ordinals.len(), |i: int| article_temp_name(ordinals[i]))),
{
    let entries = Seq::new(ordinals.len(), |i: int| article_temp_name(ordinals[i]));
    assert forall|k: int| 0 <= k < entries.len() implies !is_article_name(
        #[trigger] entries[k],
    ) by {
        lemma_article_names(ordinals[k]);
    }
}

/// The number of article files among `names`.
pub open spec fn article_count(names: Seq<Seq<char>>) -> nat
    decreases names.len(),
{
    if names.len() == 0 {
        0
    } else if is_article_name(names.last()) {
        article_count(names.drop_last()) + 1
    } else {
        article_count(names.drop_last())
    }
}

/// Ordering neither drops nor repeats an article file: the ordered list is as
/// long as there are article files among the names given.
pub proof fn lemma_ordered_articles_len(names: Seq<Seq<char>>)
    ensures
        ordered_articles(names).len() == article_count(names),
    decreases names.len(),
{
    if names.len() > 0 {
        lemma_ordered_articles_len(names.drop_last());
        lemma_ordered_articles(names.drop_last());
        let before = ordered_articles(names.drop_last());
        lemma_slot(before, article_key(names.last()));
    }
}

/// The issue whose directory has this name: the name is the issue's decimal
/// number.
pub fn issue_of_dir(name: &str) -> (issue: Option<u32>)
    ensures
        issue == parse_number(name@),
{
    let chars = chars_of(name);
    proof {
        assert(chars@.subrange(0, chars.len() as int) =~= name@);
    }
    parse_digits(&chars, 0, chars.len())
}

} // verus!
