//! The sample photos offered when no photo has been brought, and the labels their buttons carry.
//!
//! The files are named for the stock library and the photographer, so the label is the photographer: the shelf mark
//! in the middle says nothing to anyone looking at a row of buttons.

use vstd::prelude::*;

use crate::text::{decimal, lemma_decimal_reads_back, push_decimal, str_eq, digits_value};

verus! {

/// Where a sample lives, relative to the page.
pub fn url(file: &str) -> (location: String)
    ensures
        location@ == "samples/"@ + file@,
{
    let mut location = String::from_str("samples/");
    location.append(file);
    location
}

/// The position of the last `c` in `s`.
pub open spec fn last_index_of(s: Seq<char>, c: char) -> Option<int>
    decreases s.len(),
{
    if s.len() == 0 {
        None
    } else if s.last() == c {
        Some(s.len() - 1)
    } else {
        last_index_of(s.drop_last(), c)
    }
}

/// Whether every character of `s` is an ASCII digit, which an empty `s` satisfies.
pub open spec fn all_ascii_digits(s: Seq<char>) -> bool {
    forall|i: int| 0 <= i < s.len() ==> '0' <= #[trigger] s[i] <= '9'
}

/// `s` without its last `.` and what follows it.
pub open spec fn stem_of(s: Seq<char>) -> Seq<char> {
    match last_index_of(s, '.') {
        Some(dot) => s.take(dot),
        None => s,
    }
}

/// The stock library's prefix.
pub open spec fn library_prefix() -> Seq<char> {
    seq!['p', 'e', 'x', 'e', 'l', 's', '-']
}

/// `s` without the stock library's prefix, when it has one.
pub open spec fn without_library(s: Seq<char>) -> Seq<char> {
    if s.len() >= 7 && s.take(7) == library_prefix() {
        s.skip(7)
    } else {
        s
    }
}

/// `s` with every trailing `-` and run of digits after it dropped, one run at a time from the end.
pub open spec fn without_numbers(s: Seq<char>) -> Seq<char>
    decreases s.len(),
{
    match last_index_of(s, '-') {
        Some(dash) => if 0 <= dash < s.len() && all_ascii_digits(s.skip(dash + 1)) {
            without_numbers(s.take(dash))
        } else {
            s
        },
        None => s,
    }
}

/// The photographer's name out of a stock filename: the extension, the library's prefix and every trailing run of
/// digits dropped. A filename that was all numbers leaves nothing to call it, so it keeps what it had.
pub open spec fn spec_photographer(file: Seq<char>) -> Seq<char> {
    let body = without_library(stem_of(file));
    let name = without_numbers(body);
    if name.len() == 0 {
        body
    } else {
        name
    }
}

/// The position of the last `c` in `s`, if there is one.
fn rfind_char(s: &str, c: char) -> (at: Option<usize>)
    ensures
        at matches Some(i) ==> i < s@.len() && last_index_of(s@, c) == Some(i as int),
        at is None ==> last_index_of(s@, c) is None,
{
    let n = s.unicode_len();
    let mut i: usize = n;
    assert(s@.take(n as int) =~= s@);
    while i > 0
        invariant
            i <= n,
            n == s@.len(),
            last_index_of(s@, c) == last_index_of(s@.take(i as int), c),
        decreases i,
    {
        if s.get_char(i - 1) == c {
            assert(last_index_of(s@.take(i as int), c) == Some(i - 1));
            return Some(i - 1);
        }
        assert(s@.take(i as int).drop_last() =~= s@.take(i - 1));
        i = i - 1;
    }
    assert(s@.take(0) =~= Seq::<char>::empty());
    None
}

/// Whether every character of `s` is an ASCII digit.
fn digits_only(s: &str) -> (digits: bool)
    ensures
        digits == all_ascii_digits(s@),
{
    let n = s.unicode_len();
    let mut i: usize = 0;
    while i < n
        invariant
            i <= n,
            n == s@.len(),
            forall|j: int| 0 <= j < i ==> '0' <= #[trigger] s@[j] <= '9',
        decreases n - i,
    {
        let c = s.get_char(i);
        if !('0' <= c && c <= '9') {
            return false;
        }
        i = i + 1;
    }
    true
}

/// A file's name without its extension, so `beach.jpg` downloads as `beach_dithered.png`.
pub fn file_stem(name: &str) -> (stem: String)
    ensures
        stem@ == stem_of(name@),
{
    let end = match rfind_char(name, '.') {
        Some(dot) => dot,
        None => name.unicode_len(),
    };
    let stem = name.substring_char(0, end);
    assert(stem@ == stem_of(name@)) by {
        if end == name@.len() {
            assert(name@.subrange(0, end as int) =~= name@);
        }
    }
    String::from_str(stem)
}

/// The photographer's name out of a stock filename.
///
/// `pexels-mark-theunissen-2157442753-34724738.jpg` is the shape to read: a library, a name that may be several
/// words, then the numbers the library files it under. Dropping the extension, the library's prefix and every trailing
/// run of digits leaves the name.
pub fn photographer<'a>(file: &'a str) -> (name: &'a str)
    ensures
        name@ == spec_photographer(file@),
{
    proof {
        reveal_strlit("pexels-");
    }
    let n = file.unicode_len();
    let stem_end = match rfind_char(file, '.') {
        Some(dot) => dot,
        None => n,
    };
    let stem = file.substring_char(0, stem_end);
    assert(stem@ == stem_of(file@)) by {
        if stem_end == n {
            assert(file@.subrange(0, n as int) =~= file@);
        }
    }
    let prefix = "pexels-";
    let stem_len = stem.unicode_len();
    let body = if stem_len >= 7 && str_eq(stem.substring_char(0, 7), prefix) {
        stem.substring_char(7, stem_len)
    } else {
        stem
    };
    assert(prefix@ =~= library_prefix());
    assert(body@ == without_library(stem@)) by {
        if stem_len >= 7 {
            assert(stem@.subrange(0, 7) =~= stem@.take(7));
            assert(stem@.subrange(7, stem_len as int) =~= stem@.skip(7));
        }
    }
    let mut name = body;
    loop
        invariant
            without_numbers(name@) == without_numbers(body@),
        ensures
            without_numbers(name@) == without_numbers(body@),
            without_numbers(name@) == name@,
        decreases name@.len(),
    {
        let len = name.unicode_len();
        match rfind_char(name, '-') {
            Some(dash) => {
                let tail = name.substring_char(dash + 1, len);
                assert(tail@ =~= name@.skip(dash + 1));
                if digits_only(tail) {
                    let head = name.substring_char(0, dash);
                    assert(head@ =~= name@.take(dash as int));
                    name = head;
                } else {
                    break ;
                }
            },
            None => {
                break ;
            },
        }
    }
    // The loop stops where nothing more comes off, which is the fixed point `without_numbers` describes.
    assert(without_numbers(name@) == name@);
    if name.unicode_len() == 0 {
        body
    } else {
        name
    }
}

/// `s` with every `-` turned into a space, so a name reads as words.
pub open spec fn spaced(s: Seq<char>) -> Seq<char> {
    s.map_values(|c: char| if c == '-' { ' ' } else { c })
}

/// `name` with every `-` turned into a space.
fn spell_out(name: &str) -> (spelled: String)
    ensures
        spelled@ == spaced(name@),
{
    let n = name.unicode_len();
    let mut spelled = String::new();
    let mut i: usize = 0;
    while i < n
        invariant
            i <= n,
            n == name@.len(),
            spelled@ == spaced(name@.take(i as int)),
        decreases n - i,
    {
        let c = name.get_char(i);
        let ghost before = spelled@;
        if c == '-' {
            let space = " ";
            proof {
                reveal_strlit(" ");
            }
            assert(space@ =~= seq![' ']);
            spelled.append(space);
            assert(spelled@ =~= before.push(' '));
        } else {
            let one = name.substring_char(i, i + 1);
            assert(one@ =~= seq![c]);
            spelled.append(one);
            assert(spelled@ =~= before.push(c));
        }
        assert(name@.take(i + 1) =~= name@.take(i as int).push(c));
        assert(spaced(name@.take(i + 1)) =~= spaced(name@.take(i as int)).push(if c == '-' { ' ' } else { c }));
        assert(spelled@ =~= spaced(name@.take(i + 1)));
        i = i + 1;
    }
    assert(name@.take(n as int) =~= name@);
    spelled
}

/// How many of the first `upto` names are `name`.
pub open spec fn occurrences(names: Seq<Seq<char>>, upto: int, name: Seq<char>) -> nat
    decreases upto,
{
    if upto <= 0 {
        0
    } else {
        occurrences(names, upto - 1, name) + if names[upto - 1] == name {
            1nat
        } else {
            0nat
        }
    }
}

/// The label of the `i`th sample: the photographer, spelled out, and numbered by order of appearance when the same
/// photographer is behind more than one sample.
pub open spec fn sample_label(names: Seq<Seq<char>>, i: int) -> Seq<char> {
    if occurrences(names, names.len() as int, names[i]) > 1 {
        spaced(names[i]) + seq![' '] + decimal(occurrences(names, i + 1, names[i]))
    } else {
        spaced(names[i])
    }
}

/// The photographers behind a list of files, in order.
pub open spec fn photographers(files: Seq<&str>) -> Seq<Seq<char>> {
    files.map_values(|file: &str| spec_photographer(file@))
}

/// How many of the first `upto` names are `name`.
fn count_among(names: &Vec<&str>, upto: usize, name: &str) -> (count: usize)
    requires
        upto <= names.len(),
    ensures
        count == occurrences(names@.map_values(|n: &str| n@), upto as int, name@),
        count <= upto,
{
    let ghost spelled = names@.map_values(|n: &str| n@);
    let mut count: usize = 0;
    let mut i: usize = 0;
    while i < upto
        invariant
            i <= upto <= names.len(),
            spelled == names@.map_values(|n: &str| n@),
            count == occurrences(spelled, i as int, name@),
            count <= i,
        decreases upto - i,
    {
        if str_eq(names[i], name) {
            count = count + 1;
        }
        i = i + 1;
    }
    count
}

/// The samples with a label each, in the order they are given.
///
/// A photographer who appears more than once is numbered, since two buttons reading the same thing would be a coin
/// toss.
pub fn labelled<'a>(samples: &[&'a str]) -> (labels: Vec<(&'a str, String)>)
    ensures
        labels.len() == samples@.len(),
        forall|i: int|
            0 <= i < samples@.len() ==> (#[trigger] labels@[i]).0 == samples@[i] && labels@[i].1@ == sample_label(
                photographers(samples@),
                i,
            ),
{
    let ghost names_spec = photographers(samples@);
    let mut names: Vec<&'a str> = Vec::new();
    let mut i: usize = 0;
    while i < samples.len()
        invariant
            i <= samples@.len(),
            names@.len() == i,
            names_spec == photographers(samples@),
            forall|j: int| 0 <= j < i ==> (#[trigger] names@[j])@ == names_spec[j],
        decreases samples@.len() - i,
    {
        names.push(photographer(samples[i]));
        i = i + 1;
    }
    assert(names@.map_values(|n: &str| n@) =~= names_spec);
    let mut labels: Vec<(&'a str, String)> = Vec::new();
    let mut k: usize = 0;
    while k < samples.len()
        invariant
            k <= samples@.len(),
            names@.len() == samples@.len(),
            names@.map_values(|n: &str| n@) == names_spec,
            names_spec == photographers(samples@),
            labels@.len() == k,
            forall|j: int|
                0 <= j < k ==> (#[trigger] labels@[j]).0 == samples@[j] && labels@[j].1@ == sample_label(
                    names_spec,
                    j,
                ),
        decreases samples@.len() - k,
    {
        let name = names[k];
        assert(name@ == names_spec[k as int]);
        let total = count_among(&names, names.len(), name);
        let mut label = spell_out(name);
        if total > 1 {
            let nth = count_among(&names, k + 1, name);
            proof {
                reveal_strlit(" ");
            }
            label.append(" ");
            push_decimal(&mut label, nth as u64);
        }
        labels.push((samples[k], label));
        k = k + 1;
    }
    labels
}

proof fn lemma_occurrences_grow(names: Seq<Seq<char>>, i: int, j: int, name: Seq<char>)
    requires
        0 <= i <= j <= names.len(),
    ensures
        occurrences(names, i, name) <= occurrences(names, j, name),
    decreases j - i,
{
    if i < j {
        lemma_occurrences_grow(names, i, j - 1, name);
    }
}

/// Two samples by the same photographer never share a label: each is numbered by its own order of appearance.
pub proof fn lemma_repeats_are_told_apart(names: Seq<Seq<char>>, i: int, j: int)
    requires
        0 <= i < j < names.len(),
        names[i] == names[j],
    ensures
        sample_label(names, i) != sample_label(names, j),
{
    let name = names[i];
    lemma_occurrences_grow(names, i + 1, j, name);
    lemma_occurrences_grow(names, 0, i, name);
    lemma_occurrences_grow(names, j + 1, names.len() as int, name);
    let a = occurrences(names, i + 1, name);
    let b = occurrences(names, j + 1, name);
    assert(a < b);
    assert(occurrences(names, names.len() as int, name) >= 2);
    let prefix = spaced(name) + seq![' '];
    if sample_label(names, i) == sample_label(names, j) {
        assert(sample_label(names, i) == prefix + decimal(a));
        assert(sample_label(names, j) == prefix + decimal(b));
        assert((prefix + decimal(a)).skip(prefix.len() as int) =~= decimal(a));
        assert((prefix + decimal(b)).skip(prefix.len() as int) =~= decimal(b));
        lemma_decimal_reads_back(a);
        lemma_decimal_reads_back(b);
        assert(digits_value(decimal(a)) == digits_value(decimal(b)));
    }
}

} // verus!
