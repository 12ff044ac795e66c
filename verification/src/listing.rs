//! Reading the archive's pages: the issue numbers that the index links to and
//! the article ordinals that an issue page links to, and the addresses that
//! the archive serves them under.

use vstd::prelude::*;
use vstd::string::*;
use crate::config::{join, join_path};
use crate::download::{locator_views, ArticleLocator, LocatorView};
use crate::text::{chars_of, decimal, digit_value, parse_digits, parse_number, push_decimal};

verus! {

/// Whether `pattern` stands in `page` at position `pos`.
pub open spec fn stands_at(page: Seq<char>, pos: int, pattern: Seq<char>) -> bool {
    0 <= pos && pos + pattern.len() <= page.len() && page.subrange(pos, pos + pattern.len())
        == pattern
}

/// The end of the longest run of decimal digits that starts at `pos`.
pub open spec fn digits_end(page: Seq<char>, pos: int) -> int
    decreases page.len() - pos,
{
    if 0 <= pos < page.len() && digit_value(page[pos]) is Some {
        digits_end(page, pos + 1)
    } else {
        pos
    }
}

/// The number of the link that starts at `pos`: `prefix`, then the longest run
/// of digits, which denotes a number of 32 bits, then `suffix`.
pub open spec fn link_at(page: Seq<char>, pos: int, prefix: Seq<char>, suffix: Seq<char>) -> Option<
    u32,
> {
    let from = pos + prefix.len();
    let to = digits_end(page, from);
    if stands_at(page, pos, prefix) && from <= to <= page.len() && stands_at(page, to, suffix) {
        parse_number(page.subrange(from, to))
    } else {
        None
    }
}

/// The numbers of the links that start at `pos` or later, in page order.
pub open spec fn links_from(page: Seq<char>, pos: int, prefix: Seq<char>, suffix: Seq<char>) -> Seq<
    u32,
>
    decreases page.len() - pos,
{
    if pos < 0 || pos >= page.len() {
        Seq::empty()
    } else {
        match link_at(page, pos, prefix, suffix) {
            Some(n) => seq![n] + links_from(page, pos + 1, prefix, suffix),
            None => links_from(page, pos + 1, prefix, suffix),
        }
    }
}

/// The positive numbers of `numbers`, each once, in the order in which they
/// first occur.
pub open spec fn first_occurrences(numbers: Seq<u32>) -> Seq<u32>
    decreases numbers.len(),
{
    if numbers.len() == 0 {
        Seq::empty()
    } else {
        let earlier = first_occurrences(numbers.drop_last());
        if numbers.last() == 0 || earlier.contains(numbers.last()) {
            earlier
        } else {
            earlier.push(numbers.last())
        }
    }
}

/// The numbers that a page links to: positive, each once, in page order.
pub open spec fn linked_numbers(page: Seq<char>, prefix: Seq<char>, suffix: Seq<char>) -> Seq<u32> {
    first_occurrences(links_from(page, 0, prefix, suffix))
}

/// The address of the archive's index below its base address.
pub open spec fn index_address(base: Seq<char>) -> Seq<char> {
    join_path(base, "issues/"@)
}

/// The address of the page of an issue.
pub open spec fn issue_address(base: Seq<char>, issue: u32) -> Seq<char> {
    index_address(base) + decimal(issue as nat) + "/"@
}

/// The address of one article of an issue.
pub open spec fn article_address(base: Seq<char>, issue: u32, ordinal: u32) -> Seq<char> {
    issue_address(base, issue) + decimal(ordinal as nat) + ".txt"@
}

/// The locators of the articles with the given ordinals.
pub open spec fn locators_of(base: Seq<char>, issue: u32, ordinals: Seq<u32>) -> Seq<LocatorView> {
    Seq::new(
        ordinals.len(),
        |i: int| LocatorView { ordinal: ordinals[i], address: article_address(base, issue, ordinals[i]) },
    )
}

fn has_at(page: &Vec<char>, pos: usize, pattern: &Vec<char>) -> (b: bool)
    requires
        pos <= page.len(),
    ensures
        b == stands_at(page@, pos as int, pattern@),
{
    if pattern.len() > page.len() - pos {
        return false;
    }
    let mut k: usize = 0;
    while k < pattern.len()
        invariant
            k <= pattern.len(),
            pos + pattern.len() <= page.len(),
            forall|j: int| 0 <= j < k ==> page[pos + j] == pattern[j],
        decreases pattern.len() - k,
    {
        if page[pos + k] != pattern[k] {
            proof {
                let part = page@.subrange(pos as int, pos + pattern.len());
                assert(part[k as int] == page[pos + k]);
            }
            return false;
        }
        k = k + 1;
    }
    proof {
        assert(page@.subrange(pos as int, pos + pattern.len()) =~= pattern@);
    }
    true
}

fn is_digit(c: char) -> (b: bool)
    ensures
        b == (digit_value(c) is Some),
{
    c == '0' || c == '1' || c == '2' || c == '3' || c == '4' || c == '5' || c == '6' || c == '7'
        || c == '8' || c == '9'
}

fn find_digits_end(page: &Vec<char>, from: usize) -> (to: usize)
    requires
        from <= page.len(),
    ensures
        from <= to <= page.len(),
        to == digits_end(page@, from as int),
{
    let mut to: usize = from;
    while to < page.len() && is_digit(page[to])
        invariant
            from <= to <= page.len(),
            digits_end(page@, from as int) == digits_end(page@, to as int),
        decreases page.len() - to,
    {
        to = to + 1;
    }
    to
}

fn read_link(page: &Vec<char>, pos: usize, prefix: &Vec<char>, suffix: &Vec<char>) -> (n: Option<u32>)
    requires
        pos < page.len(),
    ensures
        n == link_at(page@, pos as int, prefix@, suffix@),
{
    if !has_at(page, pos, prefix) {
        return None;
    }
    let from: usize = pos + prefix.len();
    let to = find_digits_end(page, from);
    if !has_at(page, to, suffix) {
        return None;
    }
    parse_digits(page, from, to)
}

fn holds(numbers: &Vec<u32>, n: u32) -> (b: bool)
    ensures
        b == numbers@.contains(n),
{
    let mut i: usize = 0;
    while i < numbers.len()
        invariant
            i <= numbers.len(),
            forall|j: int| 0 <= j < i ==> numbers[j] != n,
        decreases numbers.len() - i,
    {
        if numbers[i] == n {
            return true;
        }
        i = i + 1;
    }
    false
}

proof fn lemma_first_occurrences_push(numbers: Seq<u32>, n: u32)
    ensures
        first_occurrences(numbers.push(n)) == if n == 0 || first_occurrences(numbers).contains(n) {
            first_occurrences(numbers)
        } else {
            first_occurrences(numbers).push(n)
        },
{
    assert(numbers.push(n).drop_last() =~= numbers);
}

/// Reads from a page the numbers that it links to: every place where
/// `prefix`, a number and `suffix` follow one another counts as a link. Zero
/// is no number of an issue or an article, and a number linked twice is
/// listed once, at its first place.
pub fn numbers_linked(page: &str, prefix: &str, suffix: &str) -> (numbers: Vec<u32>)
    ensures
        numbers@ == linked_numbers(page@, prefix@, suffix@),
{
    let chars = chars_of(page);
    let pre = chars_of(prefix);
    let suf = chars_of(suffix);
    let mut numbers: Vec<u32> = Vec::new();
    let mut end: usize = chars.len();
    // The page is read from its end, so `found` holds the links last to first.
    let mut found: Vec<u32> = Vec::new();
    while end > 0
        invariant
            end <= chars.len(),
            found@.reverse() == links_from(chars@, end as int, pre@, suf@),
        decreases end,
    {
        end = end - 1;
        let ghost rest = links_from(chars@, end + 1, pre@, suf@);
        match read_link(&chars, end, &pre, &suf) {
            Some(n) => {
                found.push(n);
                proof {
                    assert(found@.reverse() =~= seq![n] + rest);
                }
            },
            None => {},
        }
    }
    let mut i: usize = found.len();
    proof {
        assert(found@.reverse().subrange(0, 0) =~= Seq::<u32>::empty());
    }
    while i > 0
        invariant
            i <= found.len(),
            numbers@ == first_occurrences(found@.reverse().subrange(0, found.len() - i)),
        decreases i,
    {
        i = i - 1;
        let n = found[i];
        proof {
            let all = found@.reverse();
            let before = all.subrange(0, found.len() - i - 1);
            assert(all[found.len() - i - 1] == n);
            assert(all.subrange(0, found.len() - i) =~= before.push(n));
            lemma_first_occurrences_push(before, n);
        }
        if n != 0 && !holds(&numbers, n) {
            numbers.push(n);
        }
    }
    proof {
        assert(found@.reverse().subrange(0, found.len() as int) =~= found@.reverse());
    }
    numbers
}

/// The address of the archive's index.
pub fn index_url(base: &str) -> (url: String)
    ensures
        url@ == index_address(base@),
{
    join(base, "issues/")
}

/// The address of the page of an issue.
pub fn issue_url(base: &str, issue: u32) -> (url: String)
    ensures
        url@ == issue_address(base@, issue),
{
    let mut url = index_url(base);
    push_decimal(&mut url, issue as u64);
    url.append("/");
    url
}

/// The locators of the articles of an issue with the given ordinals, in the
/// order given.
pub fn article_locators(base: &str, issue: u32, ordinals: &Vec<u32>) -> (locators: Vec<
    ArticleLocator,
>)
    ensures
        locator_views(locators@) == locators_of(base@, issue, ordinals@),
{
    let mut locators: Vec<ArticleLocator> = Vec::new();
    let mut i: usize = 0;
    while i < ordinals.len()
        invariant
            i <= ordinals.len(),
            locators.len() == i,
            forall|j: int|
                0 <= j < i ==> (#[trigger] locators[j])@ == (LocatorView {
                    ordinal: ordinals[j],
                    address: article_address(base@, issue, ordinals[j]),
                }),
        decreases ordinals.len() - i,
    {
        let mut address = issue_url(base, issue);
        push_decimal(&mut address, ordinals[i] as u64);
        address.append(".txt");
        locators.push(ArticleLocator { ordinal: ordinals[i], address });
        i = i + 1;
    }
    proof {
        assert(locator_views(locators@) =~= locators_of(base@, issue, ordinals@));
    }
    locators
}

/// The issues that the archive's index page links to: each link holds
/// `issues/`, the number of the issue and a slash.
pub fn issues_on(page: &str) -> (issues: Vec<u32>)
    ensures
        issues@ == linked_numbers(page@, "issues/"@, "/"@),
{
    numbers_linked(page, "issues/", "/")
}

/// The articles that the page of an issue links to, in page order: each link
/// holds a slash, the ordinal of the article and `.txt`.
pub fn articles_on(base: &str, issue: u32, page: &str) -> (locators: Vec<ArticleLocator>)
    ensures
        locator_views(locators@) == locators_of(
            base@,
            issue,
            linked_numbers(page@, "/"@, ".txt"@),
        ),
{
    let ordinals = numbers_linked(page, "/", ".txt");
    article_locators(base, issue, &ordinals)
}

/// What is read from a page holds positive numbers only, none of them twice,
/// each of them a number that the page links to; and every positive number
/// that the page links to is among them.
pub proof fn lemma_first_occurrences(numbers: Seq<u32>)
    ensures
        forall|i: int|
            0 <= i < first_occurrences(numbers).len() ==> (#[trigger] first_occurrences(
                numbers,
            )[i]) > 0 && numbers.contains(first_occurrences(numbers)[i]),
        forall|i: int, j: int|
            0 <= i < j < first_occurrences(numbers).len() ==> first_occurrences(numbers)[i]
                != first_occurrences(numbers)[j],
        forall|k: int|
            0 <= k < numbers.len() && numbers[k] > 0 ==> first_occurrences(numbers).contains(
                #[trigger] numbers[k],
            ),
    decreases numbers.len(),
{
    if numbers.len() > 0 {
        let init = numbers.drop_last();
        let earlier = first_occurrences(init);
        let out = first_occurrences(numbers);
        let last = numbers.last();
        lemma_first_occurrences(init);
        assert(numbers[numbers.len() - 1] == last);
        assert forall|i: int| 0 <= i < out.len() implies (#[trigger] out[i]) > 0
            && numbers.contains(out[i]) by {
            if i < earlier.len() {
                assert(out[i] == earlier[i]);
                let k = choose|k: int| 0 <= k < init.len() && init[k] == earlier[i];
                assert(numbers[k] == earlier[i]);
            }
        }
        assert forall|i: int, j: int| 0 <= i < j < out.len() implies out[i] != out[j] by {
            assert(out[i] == earlier[i]);
            if j < earlier.len() {
                assert(out[j] == earlier[j]);
            }
        }
        assert forall|k: int| 0 <= k < numbers.len() && numbers[k] > 0 implies out.contains(
            #[trigger] numbers[k],
        ) by {
            if k < init.len() {
                assert(init[k] == numbers[k]);
                let i = choose|i: int| 0 <= i < earlier.len() && earlier[i] == init[k];
                assert(out[i] == numbers[k]);
            } else if earlier.contains(last) {
                let i = choose|i: int| 0 <= i < earlier.len() && earlier[i] == last;
                assert(out[i] == last);
            } else {
                assert(out[out.len() - 1] == last);
            }
        }
    }
}

} // verus!
