//! The terminal's command line: splitting a line into words, commands with
//! named arguments, and the line editing that the keyboard drives.
use vstd::prelude::*;
use vstd::string::StrSliceExecFns;
use hashbrown::HashMap;
use pc_keyboard::{layouts, DecodedKey, HandleControl, Keyboard, ScancodeSet1};

verus! {

/// A map from argument names to the values given for them, held in a hash
/// map of the `hashbrown` crate.
#[verifier::external_body]
pub struct ArgMap {
    map: HashMap<String, String>,
}

/// The entries of an argument map, each name and value taken by its
/// characters.
pub uninterp spec fn arg_map_contents(m: ArgMap) -> Map<Seq<char>, Seq<char>>;

impl ArgMap {
    /// `HashMap::new` of `hashbrown`: a map with no entries.
    #[verifier::external_body]
    fn new() -> (r: ArgMap)
        ensures
            arg_map_contents(r) =~= Map::empty(),
    {
        ArgMap { map: HashMap::new() }
    }

    /// `HashMap::insert` of `hashbrown`: afterwards `name` maps to `value`,
    /// and every other entry is as it was.
    #[verifier::external_body]
    fn insert(&mut self, name: String, value: String)
        ensures
            arg_map_contents(*final(self)) == arg_map_contents(*old(self)).insert(name@, value@),
    {
        self.map.insert(name, value);
    }

    /// `HashMap::get` of `hashbrown`, the value cloned: the value of `name`,
    /// if the map has an entry for it.
    #[verifier::external_body]
    fn lookup(&self, name: &str) -> (r: Option<String>)
        ensures
            match r {
                Some(v) => arg_map_contents(*self).contains_key(name@) && v@ == arg_map_contents(*self)[name@],
                None => !arg_map_contents(*self).contains_key(name@),
            },
    {
        self.map.get(name).cloned()
    }

    /// `HashMap::len` of `hashbrown`: the number of entries.
    #[verifier::external_body]
    fn entry_count(&self) -> (r: usize)
        ensures
            r == arg_map_contents(*self).len(),
    {
        self.map.len()
    }

    /// The value bound to `name`, if any.
    pub fn get(&self, name: &str) -> (r: Option<String>)
        ensures
            match r {
                Some(v) => arg_map_contents(*self).contains_key(name@) && v@ == arg_map_contents(*self)[name@],
                None => !arg_map_contents(*self).contains_key(name@),
            },
    {
        self.lookup(name)
    }

    /// The number of names bound.
    pub fn len(&self) -> (r: usize)
        ensures
            r == arg_map_contents(*self).len(),
    {
        self.entry_count()
    }
}

// ---------------------------------------------------------------------
// Whitespace and words
// ---------------------------------------------------------------------

/// The characters with the Unicode `White_Space` property.
pub open spec fn is_white_space(c: char) -> bool {
    let u = c as u32;
    ||| 0x09 <= u <= 0x0d
    ||| u == 0x20
    ||| u == 0x85
    ||| u == 0xa0
    ||| u == 0x1680
    ||| 0x2000 <= u <= 0x200a
    ||| u == 0x2028
    ||| u == 0x2029
    ||| u == 0x202f
    ||| u == 0x205f
    ||| u == 0x3000
}

/// `char::is_whitespace` from std: true exactly of the characters with the
/// Unicode `White_Space` property, which are the ones listed in
/// `is_white_space`.
#[verifier::external_body]
pub(crate) fn char_is_whitespace(c: char) -> (r: bool)
    ensures
        r == is_white_space(c),
{
    c.is_whitespace()
}

/// Reading the character `c` after the words `state.0` and the word being
/// read `state.1`: whitespace ends the word being read, if any; another
/// character extends it.
pub open spec fn split_step(state: (Seq<Seq<char>>, Seq<char>), c: char) -> (Seq<Seq<char>>, Seq<char>) {
    let (words, current) = state;
    if is_white_space(c) {
        if current.len() > 0 {
            (words.push(current), Seq::empty())
        } else {
            (words, current)
        }
    } else {
        (words, current.push(c))
    }
}

/// The state after reading the characters of `s` in order from `state`.
pub open spec fn split_from(state: (Seq<Seq<char>>, Seq<char>), s: Seq<char>) -> (Seq<Seq<char>>, Seq<char>)
    decreases s.len(),
{
    if s.len() == 0 {
        state
    } else {
        split_step(split_from(state, s.drop_last()), s.last())
    }
}

/// The words found so far in `s` and the word being read at its end, as
/// `s` is read from the left.
pub open spec fn split_state(s: Seq<char>) -> (Seq<Seq<char>>, Seq<char>) {
    split_from((Seq::empty(), Seq::empty()), s)
}

/// The maximal runs of non-whitespace characters of `s`, in order.
pub open spec fn split_words(s: Seq<char>) -> Seq<Seq<char>> {
    let (words, current) = split_state(s);
    if current.len() > 0 {
        words.push(current)
    } else {
        words
    }
}

/// The characters of each string.
pub open spec fn string_views(strings: Seq<String>) -> Seq<Seq<char>> {
    strings.map_values(|w: String| w@)
}

/// The non-whitespace characters of `s`, in order.
pub open spec fn non_white_space(s: Seq<char>) -> Seq<char> {
    s.filter(|c: char| !is_white_space(c))
}

/// The concatenation of a sequence of words.
pub open spec fn join_words(words: Seq<Seq<char>>) -> Seq<char>
    decreases words.len(),
{
    if words.len() == 0 {
        Seq::empty()
    } else {
        join_words(words.drop_last()) + words.last()
    }
}

/// A word: a non-empty run of characters without whitespace.
pub open spec fn is_word(w: Seq<char>) -> bool {
    w.len() > 0 && forall|i: int| 0 <= i < w.len() ==> !is_white_space(#[trigger] w[i])
}

proof fn lemma_split_state(s: Seq<char>)
    ensures
        forall|k: int| 0 <= k < split_state(s).0.len() ==> is_word(#[trigger] split_state(s).0[k]),
        forall|i: int| 0 <= i < split_state(s).1.len() ==> !is_white_space(#[trigger] split_state(s).1[i]),
        join_words(split_state(s).0) + split_state(s).1 == non_white_space(s),
    decreases s.len(),
{
    reveal(Seq::filter);
    if s.len() == 0 {
        assert(non_white_space(s) =~= Seq::<char>::empty());
        assert(join_words(Seq::<Seq<char>>::empty()) + Seq::<char>::empty() =~= Seq::<char>::empty());
    } else {
        let prev = s.drop_last();
        lemma_split_state(prev);
        let (words, current) = split_state(prev);
        let c = s.last();
        assert(non_white_space(s) == if !is_white_space(c) {
            non_white_space(prev).push(c)
        } else {
            non_white_space(prev)
        });
        if is_white_space(c) {
            if current.len() > 0 {
                let w2 = words.push(current);
                assert(w2.drop_last() =~= words);
                assert(join_words(w2) == join_words(words) + current);
                assert(join_words(w2) + Seq::<char>::empty() =~= join_words(w2));
                assert forall|k: int| 0 <= k < w2.len() implies is_word(#[trigger] w2[k]) by {
                    if k < words.len() {
                        assert(w2[k] == words[k]);
                    }
                }
            }
        } else {
            assert(join_words(words) + current.push(c) =~= (join_words(words) + current).push(c));
            assert forall|i: int| 0 <= i < current.push(c).len() implies !is_white_space(#[trigger] current.push(c)[i]) by {
                if i < current.len() {
                    assert(current.push(c)[i] == current[i]);
                }
            }
        }
    }
}

/// The words of a line are words, and together, in order, they hold exactly
/// the line's non-whitespace characters.
pub proof fn lemma_split_words(s: Seq<char>)
    ensures
        forall|k: int| 0 <= k < split_words(s).len() ==> is_word(#[trigger] split_words(s)[k]),
        join_words(split_words(s)) == non_white_space(s),
{
    lemma_split_state(s);
    let (words, current) = split_state(s);
    if current.len() > 0 {
        let w2 = words.push(current);
        assert(w2.drop_last() =~= words);
        assert forall|k: int| 0 <= k < w2.len() implies is_word(#[trigger] w2[k]) by {
            if k < words.len() {
                assert(w2[k] == words[k]);
            }
        }
    } else {
        assert(join_words(words) + current =~= join_words(words));
    }
}

/// Words joined by single spaces.
pub open spec fn join_with_spaces(words: Seq<Seq<char>>) -> Seq<char>
    decreases words.len(),
{
    if words.len() == 0 {
        Seq::empty()
    } else if words.len() == 1 {
        words[0]
    } else {
        join_with_spaces(words.drop_last()) + seq![' '] + words.last()
    }
}

proof fn lemma_split_from_concat(state: (Seq<Seq<char>>, Seq<char>), a: Seq<char>, b: Seq<char>)
    ensures
        split_from(state, a + b) == split_from(split_from(state, a), b),
    decreases b.len(),
{
    if b.len() == 0 {
        assert(a + b =~= a);
    } else {
        lemma_split_from_concat(state, a, b.drop_last());
        assert((a + b).drop_last() =~= a + b.drop_last());
        assert((a + b).last() == b.last());
    }
}

proof fn lemma_split_from_word(words: Seq<Seq<char>>, current: Seq<char>, w: Seq<char>)
    requires
        forall|i: int| 0 <= i < w.len() ==> !is_white_space(#[trigger] w[i]),
    ensures
        split_from((words, current), w) == (words, current + w),
    decreases w.len(),
{
    if w.len() == 0 {
        assert(current + w =~= current);
    } else {
        let prev = w.drop_last();
        assert forall|i: int| 0 <= i < prev.len() implies !is_white_space(#[trigger] prev[i]) by {
            assert(prev[i] == w[i]);
        }
        lemma_split_from_word(words, current, prev);
        assert(!is_white_space(w[w.len() - 1]));
        assert((current + prev).push(w.last()) =~= current + w);
    }
}

proof fn lemma_split_state_joined(words: Seq<Seq<char>>)
    requires
        words.len() >= 1,
        forall|k: int| 0 <= k < words.len() ==> is_word(#[trigger] words[k]),
    ensures
        split_state(join_with_spaces(words)) == (words.drop_last(), words.last()),
    decreases words.len(),
{
    let empty_state = (Seq::<Seq<char>>::empty(), Seq::<char>::empty());
    let w = words.last();
    assert(is_word(words[words.len() - 1]));
    if words.len() == 1 {
        lemma_split_from_word(Seq::empty(), Seq::empty(), w);
        assert(Seq::<char>::empty() + w =~= w);
        assert(words.drop_last() =~= Seq::<Seq<char>>::empty());
    } else {
        let prev = words.drop_last();
        assert forall|k: int| 0 <= k < prev.len() implies is_word(#[trigger] prev[k]) by {
            assert(prev[k] == words[k]);
        }
        lemma_split_state_joined(prev);
        let j = join_with_spaces(prev);
        lemma_split_from_concat(empty_state, j + seq![' '], w);
        lemma_split_from_concat(empty_state, j, seq![' ']);
        assert(seq![' '].drop_last() =~= Seq::<char>::empty());
        assert(is_white_space(' '));
        assert(is_word(prev[prev.len() - 1]));
        assert(prev.drop_last().push(prev.last()) =~= prev);
        lemma_split_from_word(prev, Seq::empty(), w);
        assert(Seq::<char>::empty() + w =~= w);
        let x = split_from(empty_state, j);
        assert(x == (prev.drop_last(), prev.last()));
        assert(seq![' '].last() == ' ');
        assert(split_from(x, seq![' ']) == split_step(split_from(x, Seq::<char>::empty()), ' '));
        assert(split_from(x, seq![' ']) == (prev, Seq::<char>::empty()));
        assert(join_with_spaces(words) == j + seq![' '] + w);
        assert(split_state(join_with_spaces(words)) == split_from(split_from(empty_state, j + seq![' ']), w));
    }
}

/// Splitting words joined by single spaces gives the words back.
pub proof fn lemma_split_joined_words(words: Seq<Seq<char>>)
    requires
        forall|k: int| 0 <= k < words.len() ==> is_word(#[trigger] words[k]),
    ensures
        split_words(join_with_spaces(words)) == words,
{
    if words.len() == 0 {
        assert(split_words(Seq::empty()) =~= Seq::<Seq<char>>::empty());
    } else {
        lemma_split_state_joined(words);
        assert(is_word(words[words.len() - 1]));
        assert(words.drop_last().push(words.last()) =~= words);
    }
}

/// Whether every character of `w` is whitespace.
pub open spec fn all_white_space(w: Seq<char>) -> bool {
    forall|i: int| 0 <= i < w.len() ==> is_white_space(#[trigger] w[i])
}

proof fn lemma_split_from_prefix_words(words: Seq<Seq<char>>, y: Seq<char>)
    ensures
        split_from((words, Seq::empty()), y) == (words + split_state(y).0, split_state(y).1),
    decreases y.len(),
{
    if y.len() == 0 {
        assert(words + Seq::<Seq<char>>::empty() =~= words);
    } else {
        lemma_split_from_prefix_words(words, y.drop_last());
        let (a, c) = split_state(y.drop_last());
        assert((words + a).push(c) =~= words + a.push(c));
    }
}

proof fn lemma_split_state_then_space(x: Seq<char>, w: Seq<char>)
    requires
        w.len() > 0,
        all_white_space(w),
    ensures
        split_state(x + w) == (split_words(x), Seq::<char>::empty()),
    decreases w.len(),
{
    let empty_state = (Seq::<Seq<char>>::empty(), Seq::<char>::empty());
    let prev = w.drop_last();
    assert(is_white_space(w[w.len() - 1]));
    assert((x + w).drop_last() =~= x + prev);
    assert((x + w).last() == w[w.len() - 1]);
    if prev.len() == 0 {
        assert(x + prev =~= x);
    } else {
        assert(all_white_space(prev)) by {
            assert forall|i: int| 0 <= i < prev.len() implies is_white_space(#[trigger] prev[i]) by {
                assert(prev[i] == w[i]);
            }
        }
        lemma_split_state_then_space(x, prev);
        lemma_split_from_concat(empty_state, x, prev);
    }
}

/// Words are split by runs of whitespace of any length: a line made of two
/// parts with whitespace between them splits into the words of the first
/// part followed by the words of the second.
pub proof fn lemma_split_words_across_space(x: Seq<char>, w: Seq<char>, y: Seq<char>)
    requires
        w.len() > 0,
        all_white_space(w),
    ensures
        split_words(x + w + y) == split_words(x) + split_words(y),
{
    let empty_state = (Seq::<Seq<char>>::empty(), Seq::<char>::empty());
    lemma_split_state_then_space(x, w);
    lemma_split_from_concat(empty_state, x + w, y);
    lemma_split_from_prefix_words(split_words(x), y);
    let (a, c) = split_state(y);
    if c.len() > 0 {
        assert((split_words(x) + a).push(c) =~= split_words(x) + a.push(c));
    }
}

/// A line of whitespace alone has no words, and a word alone is the one
/// word of its line.
pub proof fn lemma_split_words_base(w: Seq<char>, word: Seq<char>)
    requires
        all_white_space(w),
        is_word(word),
    ensures
        split_words(w) == Seq::<Seq<char>>::empty(),
        split_words(word) == seq![word],
{
    if w.len() > 0 {
        lemma_split_words_across_space(Seq::empty(), w, Seq::empty());
        assert(Seq::<char>::empty() + w + Seq::<char>::empty() =~= w);
        assert(split_words(Seq::<char>::empty()) =~= Seq::<Seq<char>>::empty());
    } else {
        assert(split_words(w) =~= Seq::<Seq<char>>::empty());
    }
    lemma_split_joined_words(seq![word]);
}

/// A line has a word exactly when it has a character that is not
/// whitespace.
pub proof fn lemma_has_word_iff_non_white_space(line: Seq<char>)
    ensures
        split_words(line).len() > 0 <==> exists|i: int| 0 <= i < line.len() && !is_white_space(#[trigger] line[i]),
{
    lemma_split_words(line);
    reveal(Seq::filter);
    let nws = non_white_space(line);
    if split_words(line).len() > 0 {
        let w = split_words(line)[0];
        assert(is_word(w));
        lemma_join_words_len(split_words(line));
        assert(nws.len() > 0);
        let c = nws[0];
        line.lemma_filter_pred(|c: char| !is_white_space(c), 0);
        assert(nws.contains(c));
        line.lemma_filter_contains_rev(|c: char| !is_white_space(c), c);
        assert(line.contains(c));
        let i = choose|i: int| 0 <= i < line.len() && line[i] == c;
        assert(!is_white_space(line[i]));
    }
    if exists|i: int| 0 <= i < line.len() && !is_white_space(#[trigger] line[i]) {
        let i = choose|i: int| 0 <= i < line.len() && !is_white_space(#[trigger] line[i]);
        line.lemma_filter_contains(|c: char| !is_white_space(c), i);
        assert(nws.contains(line[i]));
        if split_words(line).len() == 0 {
            assert(join_words(split_words(line)) =~= Seq::<char>::empty());
        }
    }
}

proof fn lemma_join_words_len(words: Seq<Seq<char>>)
    requires
        words.len() > 0,
        is_word(words[0]),
    ensures
        join_words(words).len() > 0,
    decreases words.len(),
{
    if words.len() > 1 {
        let prev = words.drop_last();
        assert(prev[0] == words[0]);
        lemma_join_words_len(prev);
    } else {
        assert(words.drop_last() =~= Seq::<Seq<char>>::empty());
    }
}

/// Splits `s` at runs of whitespace, as `str::split_whitespace` does.
pub fn split_whitespace(s: &str) -> (r: Vec<String>)
    ensures
        string_views(r@) == split_words(s@),
{
    let n = s.unicode_len();
    let mut words: Vec<String> = Vec::new();
    let mut start: usize = 0;
    let mut in_word = false;
    let mut i: usize = 0;
    while i < n
        invariant
            n == s@.len(),
            i <= n,
            in_word ==> start < i,
            split_state(s@.take(i as int)) == (string_views(words@), if in_word {
                s@.subrange(start as int, i as int)
            } else {
                Seq::<char>::empty()
            }),
        decreases n - i,
    {
        let c = s.get_char(i);
        proof {
            assert(s@.take(i + 1).drop_last() =~= s@.take(i as int));
            assert(s@.take(i + 1).last() == c);
        }
        if char_is_whitespace(c) {
            if in_word {
                let word = s.substring_char(start, i).to_owned();
                let ghost old_words = words@;
                words.push(word);
                in_word = false;
                proof {
                    assert(string_views(words@) =~= string_views(old_words).push(s@.subrange(start as int, i as int)));
                }
            }
        } else {
            if !in_word {
                start = i;
                in_word = true;
                proof {
                    assert(Seq::<char>::empty().push(c) =~= s@.subrange(i as int, i + 1));
                }
            } else {
                proof {
                    assert(s@.subrange(start as int, i as int).push(c) =~= s@.subrange(start as int, i + 1));
                }
            }
        }
        i = i + 1;
    }
    proof {
        assert(s@.take(n as int) =~= s@);
    }
    if in_word {
        let word = s.substring_char(start, n).to_owned();
        let ghost old_words = words@;
        words.push(word);
        proof {
            assert(string_views(words@) =~= string_views(old_words).push(s@.subrange(start as int, n as int)));
        }
    }
    words
}

// ---------------------------------------------------------------------
// Decimal numbers
// ---------------------------------------------------------------------

/// The character of a decimal digit.
pub open spec fn digit_char(d: nat) -> char {
    (d + 48) as char
}

/// The decimal digits of `n`, most significant first, without leading zeros.
pub open spec fn decimal(n: nat) -> Seq<char>
    decreases n,
{
    if n < 10 {
        seq![digit_char(n)]
    } else {
        decimal(n / 10).push(digit_char(n % 10))
    }
}

/// The one-character string of the decimal digit `d`.
fn digit_str(d: usize) -> (r: &'static str)
    requires
        d < 10,
    ensures
        r@ == seq![digit_char(d as nat)],
{
    match d {
        0 => { proof { reveal_strlit("0"); } "0" },
        1 => { proof { reveal_strlit("1"); } "1" },
        2 => { proof { reveal_strlit("2"); } "2" },
        3 => { proof { reveal_strlit("3"); } "3" },
        4 => { proof { reveal_strlit("4"); } "4" },
        5 => { proof { reveal_strlit("5"); } "5" },
        6 => { proof { reveal_strlit("6"); } "6" },
        7 => { proof { reveal_strlit("7"); } "7" },
        8 => { proof { reveal_strlit("8"); } "8" },
        _ => { proof { reveal_strlit("9"); } "9" },
    }
}

/// The decimal representation of `n`, as `format!("{}", n)` gives it.
pub fn decimal_string(n: usize) -> (r: String)
    ensures
        r@ == decimal(n as nat),
    decreases n,
{
    let last = digit_str(n % 10);
    if n < 10 {
        last.to_owned()
    } else {
        let mut s = decimal_string(n / 10);
        s.append(last);
        s
    }
}

// ---------------------------------------------------------------------
// Commands
// ---------------------------------------------------------------------

/// The map that binds `names[i]` to `values[i]` for each `i` in turn, a
/// later binding of a name replacing an earlier one.
pub open spec fn arg_map(names: Seq<Seq<char>>, values: Seq<Seq<char>>) -> Map<Seq<char>, Seq<char>>
    decreases names.len(),
{
    if names.len() == 0 {
        Map::empty()
    } else {
        arg_map(names.drop_last(), values).insert(names.last(), values[names.len() - 1])
    }
}

/// A built argument map binds each name of a command with distinct argument
/// names to the value in the same position, and binds nothing else.
pub proof fn lemma_arg_map_binds_in_order(names: Seq<Seq<char>>, values: Seq<Seq<char>>)
    requires
        names.no_duplicates(),
        values.len() >= names.len(),
    ensures
        forall|i: int| 0 <= i < names.len() ==> #[trigger] arg_map(names, values).contains_key(names[i])
            && arg_map(names, values)[names[i]] == values[i],
        forall|k: Seq<char>| #[trigger] arg_map(names, values).contains_key(k) ==> names.contains(k),
    decreases names.len(),
{
    if names.len() > 0 {
        let prev = names.drop_last();
        lemma_arg_map_binds_in_order(prev, values);
        let last = names.len() - 1;
        assert forall|i: int| 0 <= i < names.len() implies #[trigger] arg_map(names, values).contains_key(names[i])
            && arg_map(names, values)[names[i]] == values[i] by {
            assert(arg_map(names, values) == arg_map(prev, values).insert(names[last], values[last]));
            if i < last {
                assert(prev[i] == names[i]);
                assert(names[i] != names[last]);
                assert(arg_map(prev, values).contains_key(prev[i]));
            }
        }
        assert forall|k: Seq<char>| #[trigger] arg_map(names, values).contains_key(k) implies names.contains(k) by {
            assert(arg_map(names, values) == arg_map(prev, values).insert(names[last], values[last]));
            if k != names.last() {
                assert(arg_map(prev, values).contains_key(k));
                assert(prev.contains(k));
                let j = choose|j: int| 0 <= j < prev.len() && prev[j] == k;
                assert(names[j] == k);
            } else {
                assert(names[last] == k);
            }
        }
    }
}

/// A line made of a command's name and one word per argument, separated by
/// single spaces, splits into the name followed by the words: by the
/// contract of `Command::build`, it builds the map that binds the arguments
/// to those words.
pub proof fn lemma_command_line_words(name: Seq<char>, arg_names: Seq<Seq<char>>, values: Seq<Seq<char>>)
    requires
        is_word(name),
        values.len() == arg_names.len(),
        forall|k: int| 0 <= k < values.len() ==> is_word(#[trigger] values[k]),
    ensures
        split_words(join_with_spaces(seq![name] + values)).len() > 0,
        split_words(join_with_spaces(seq![name] + values))[0] == name,
        split_words(join_with_spaces(seq![name] + values)).len() - 1 == arg_names.len(),
        split_words(join_with_spaces(seq![name] + values)).drop_first() == values,
{
    let line = seq![name] + values;
    assert forall|k: int| 0 <= k < line.len() implies is_word(#[trigger] line[k]) by {
        if k > 0 {
            assert(line[k] == values[k - 1]);
        }
    }
    lemma_split_joined_words(line);
    assert(line.drop_first() =~= values);
}

/// The message of a command given the wrong number of arguments.
pub open spec fn arg_count_message(expected: nat) -> Seq<char> {
    "args != "@ + decimal(expected)
}

/// The message of a line that does not name the command.
pub open spec fn not_found_message(line: Seq<char>) -> Seq<char> {
    "not found '"@ + line + "' command"@
}

/// A command of the terminal: its name and the names of its arguments.
pub struct Command {
    command: String,
    args: Vec<String>,
}

impl Command {
    /// The command's name.
    pub closed spec fn name(&self) -> Seq<char> {
        self.command@
    }

    /// The names of the command's arguments, in order.
    pub closed spec fn arg_names(&self) -> Seq<Seq<char>> {
        string_views(self.args@)
    }

    /// A command named `command`, with no arguments.
    pub fn new(command: &str) -> (r: Self)
        ensures
            r.name() == command@,
            r.arg_names() == Seq::<Seq<char>>::empty(),
    {
        let r = Self { command: command.to_owned(), args: Vec::new() };
        proof {
            assert(string_views(r.args@) =~= Seq::<Seq<char>>::empty());
        }
        r
    }

    /// Adds an argument named `arg` after the others.
    pub fn arg(&mut self, arg: &str) -> (r: &Self)
        ensures
            final(self).name() == old(self).name(),
            final(self).arg_names() == old(self).arg_names().push(arg@),
            r.name() == final(self).name(),
            r.arg_names() == final(self).arg_names(),
    {
        let ghost old_args = self.args@;
        self.args.push(arg.to_owned());
        proof {
            assert(string_views(self.args@) =~= string_views(old_args).push(arg@));
        }
        self
    }

    /// Reads `buffer` as a call of this command: its first word must be the
    /// command's name and the words after it the values of the arguments,
    /// one for each, in order.
    pub fn build(&self, buffer: String) -> (r: Result<ArgMap, String>)
        requires
            split_words(buffer@).len() > 0,
        ensures
            ({
                let words = split_words(buffer@);
                match r {
                    Ok(m) => words[0] == self.name() && words.len() - 1 == self.arg_names().len()
                        && arg_map_contents(m) == arg_map(self.arg_names(), words.drop_first()),
                    Err(e) => if words[0] == self.name() {
                        words.len() - 1 != self.arg_names().len()
                            && e@ == arg_count_message(self.arg_names().len())
                    } else {
                        e@ == not_found_message(buffer@)
                    },
                }
            }),
    {
        let mut args = split_whitespace(buffer.as_str());
        let ghost words = string_views(args@);
        let command = args.remove(0);
        proof {
            assert(string_views(args@) =~= words.drop_first());
        }
        if command == self.command {
            if self.args.len() != args.len() {
                let mut message = "args != ".to_owned();
                message.append(decimal_string(self.args.len()).as_str());
                return Err(message);
            }
            let mut parsed_args = ArgMap::new();
            let mut arg: usize = 0;
            while arg < self.args.len()
                invariant
                    arg <= self.args@.len(),
                    self.args@.len() == args@.len(),
                    string_views(args@) == words.drop_first(),
                    arg_map_contents(parsed_args) == arg_map(string_views(self.args@).take(arg as int), words.drop_first()),
                decreases self.args@.len() - arg,
            {
                let name = self.args[arg].clone();
                let value = args[arg].clone();
                parsed_args.insert(name, value);
                proof {
                    let names = string_views(self.args@);
                    assert(names.take(arg + 1).drop_last() =~= names.take(arg as int));
                    assert(names.take(arg + 1).last() == self.args@[arg as int]@);
                    assert(words.drop_first()[arg as int] == args@[arg as int]@);
                }
                arg = arg + 1;
            }
            proof {
                assert(string_views(self.args@).take(arg as int) =~= string_views(self.args@));
            }
            return Ok(parsed_args);
        }
        let mut message = "not found '".to_owned();
        message.append(buffer.as_str());
        message.append("' command");
        Err(message)
    }
}

/// The lines the terminal prints for the command line `line`: the value of
/// the argument of `test`, or `help`.
pub open spec fn parse_output(line: Seq<char>) -> Seq<Seq<char>> {
    let words = split_words(line);
    (if words.len() == 2 && words[0] == "test"@ {
        seq![words[1]]
    } else {
        Seq::empty()
    }) + (if words.len() == 1 && words[0] == "help"@ {
        seq!["help"@]
    } else {
        Seq::empty()
    })
}

/// Runs the command line `buffer` against the terminal's commands and
/// returns the lines to print.
pub fn parse(buffer: String) -> (r: Vec<String>)
    requires
        split_words(buffer@).len() > 0,
    ensures
        string_views(r@) == parse_output(buffer@),
{
    let mut out: Vec<String> = Vec::new();
    let mut test = Command::new("test");
    test.arg("test_arg");
    match test.build(buffer.clone()) {
        Ok(args) => {
            proof {
                let names = seq!["test_arg"@];
                assert(test.arg_names() =~= names);
                assert(names.drop_last() =~= Seq::<Seq<char>>::empty());
                assert(arg_map_contents(args).contains_key("test_arg"@));
            }
            match args.get("test_arg") {
                Some(value) => {
                    out.push(value);
                },
                None => {},
            }
        },
        Err(_) => {},
    }
    let ghost after_test = out@;
    let help = Command::new("help");
    match help.build(buffer.clone()) {
        Ok(_) => {
            out.push("help".to_owned());
        },
        Err(_) => {},
    }
    proof {
        let words = split_words(buffer@);
        assert(string_views(after_test) =~= (if words.len() == 2 && words[0] == "test"@ {
            seq![words[1]]
        } else {
            Seq::<Seq<char>>::empty()
        }));
        assert(string_views(out@) =~= parse_output(buffer@));
    }
    out
}

// ---------------------------------------------------------------------
// Line editing
// ---------------------------------------------------------------------

/// The newline character, which ends a command line.
pub open spec fn enter_char() -> char {
    '\n'
}

/// The backspace character, which erases the last character of the line.
pub open spec fn backspace_char() -> char {
    '\u{8}'
}

/// A key as the keyboard decodes it: a character, or a key without one,
/// given by the name of its key code.
#[derive(Debug, PartialEq, Eq)]
pub enum Key {
    Unicode(char),
    RawKey(String),
}

/// What the terminal shows in answer to a key, in this order: the
/// character echoed, the lines of a command's output, a new prompt, the
/// erasure of the last character shown, the name of a key without a
/// character.
pub struct Response {
    pub echo: Option<char>,
    pub lines: Vec<String>,
    pub prompt: bool,
    pub erase: bool,
    pub raw_key: Option<String>,
}

/// The command line after `key`.
pub open spec fn next_line(line: Seq<char>, key: Key) -> Seq<char> {
    match key {
        Key::Unicode(c) => if c == enter_char() {
            Seq::empty()
        } else if c == backspace_char() {
            if line.len() > 0 {
                line.drop_last()
            } else {
                line
            }
        } else {
            line.push(c)
        },
        Key::RawKey(_) => line,
    }
}

/// Whether the terminal can answer `key` with the command line `line`:
/// a line ended by the newline must be empty or hold a word.
pub open spec fn key_allowed(line: Seq<char>, key: Key) -> bool {
    key == Key::Unicode(enter_char()) && line.len() > 0 ==> split_words(line).len() > 0
}

/// Whether `r` is the terminal's answer to `key` with the command line
/// `line`: a newline is echoed, runs the line if it is not empty and asks
/// for a prompt; a backspace erases a character if there is one; another
/// character is echoed; a key without a character is named.
pub open spec fn answers(line: Seq<char>, key: Key, r: Response) -> bool {
    match key {
        Key::Unicode(c) => if c == enter_char() {
            &&& r.echo == Some(c)
            &&& string_views(r.lines@) == (if line.len() > 0 {
                parse_output(line)
            } else {
                Seq::empty()
            })
            &&& r.prompt
            &&& !r.erase
            &&& r.raw_key is None
        } else if c == backspace_char() {
            &&& r.echo is None
            &&& r.lines@.len() == 0
            &&& !r.prompt
            &&& r.erase == (line.len() > 0)
            &&& r.raw_key is None
        } else {
            &&& r.echo == Some(c)
            &&& r.lines@.len() == 0
            &&& !r.prompt
            &&& !r.erase
            &&& r.raw_key is None
        },
        Key::RawKey(name) => {
            &&& r.echo is None
            &&& r.lines@.len() == 0
            &&& !r.prompt
            &&& !r.erase
            &&& r.raw_key matches Some(n) && n@ == name@
        },
    }
}

/// `String::push` of std: appends `c`.
#[verifier::external_body]
fn push_char(s: &mut String, c: char)
    ensures
        final(s)@ == old(s)@.push(c),
{
    s.push(c);
}

/// The decoder of the PS/2 keyboard's scancodes: a `Keyboard` of the
/// `pc_keyboard` crate with the US 104-key layout and scancode set 1, which
/// ignores the control keys' effect on letters.
#[verifier::external_body]
pub struct KeyDecoder {
    keyboard: Keyboard<layouts::Us104Key, ScancodeSet1>,
}

/// The key that a decoder gives for `scancode`, if the scancode completes
/// one.
pub uninterp spec fn key_after(d: KeyDecoder, scancode: u8) -> Option<Key>;

/// The decoder after it has read `scancode`.
pub uninterp spec fn decoder_after(d: KeyDecoder, scancode: u8) -> KeyDecoder;

impl KeyDecoder {
    /// `Keyboard::new` of `pc_keyboard`, with the US 104-key layout, scancode
    /// set 1 and `HandleControl::Ignore`: a decoder that has read nothing.
    #[verifier::external_body]
    pub fn new() -> KeyDecoder {
        KeyDecoder { keyboard: Keyboard::new(layouts::Us104Key, ScancodeSet1, HandleControl::Ignore) }
    }

    /// `Keyboard::add_byte` of `pc_keyboard` on `scancode`, then, where that
    /// completes a key event, `Keyboard::process_keyevent` on it: the
    /// decoded key, a key code taken by its `Debug` name.  Both depend on
    /// the decoder's state and the scancode alone.
    #[verifier::external_body]
    pub fn decode(&mut self, scancode: u8) -> (r: Option<Key>)
        ensures
            r == key_after(*old(self), scancode),
            *final(self) == decoder_after(*old(self), scancode),
    {
        match self.keyboard.add_byte(scancode) {
            Ok(Some(event)) => match self.keyboard.process_keyevent(event) {
                Some(DecodedKey::Unicode(c)) => Some(Key::Unicode(c)),
                Some(DecodedKey::RawKey(code)) => Some(Key::RawKey(format!("{:?}", code))),
                None => None,
            },
            _ => None,
        }
    }
}

/// What a scancode leads to: no key, the terminal's answer to the key it
/// completes, or a newline on a command line of whitespace alone, which the
/// terminal cannot run.
pub enum ScancodeAnswer {
    NoKey,
    Answer(Response),
    BlankLineEntered,
}

/// The terminal's command line being typed.
pub struct Terminal {
    buffer: String,
}

impl Terminal {
    /// The characters typed since the last newline.
    pub closed spec fn line(&self) -> Seq<char> {
        self.buffer@
    }

    /// A terminal with an empty command line.
    pub fn new() -> (r: Self)
        ensures
            r.line() == Seq::<char>::empty(),
    {
        Terminal { buffer: String::new() }
    }

    /// The command line typed so far.
    pub fn line_text(&self) -> (r: String)
        ensures
            r@ == self.line(),
    {
        self.buffer.clone()
    }

    /// Whether the terminal can answer `key`.
    pub fn can_answer(&self, key: &Key) -> (r: bool)
        ensures
            r == key_allowed(self.line(), *key),
    {
        let enter = match key {
            Key::Unicode(c) => *c == '\n',
            Key::RawKey(_) => false,
        };
        if enter && !self.buffer.as_str().is_empty() {
            let words = split_whitespace(self.buffer.as_str());
            words.len() > 0
        } else {
            true
        }
    }

    /// Answers `key`: a newline runs the line, if any, and starts a new one;
    /// a backspace erases the last character, if any; another character is
    /// echoed and added to the line; a key without a character is named.
    pub fn handle_key(&mut self, key: Key) -> (r: Response)
        requires
            key_allowed(old(self).line(), key),
        ensures
            final(self).line() == next_line(old(self).line(), key),
            answers(old(self).line(), key, r),
    {
        let ghost k = key;
        let mut response = Response { echo: None, lines: Vec::new(), prompt: false, erase: false, raw_key: None };
        match key {
            Key::Unicode(character) => {
                if character == '\n' {
                    response.echo = Some(character);
                    if !self.buffer.as_str().is_empty() {
                        response.lines = parse(self.buffer.clone());
                        self.buffer = String::new();
                    } else {
                        proof {
                            assert(string_views(response.lines@) =~= Seq::<Seq<char>>::empty());
                        }
                    }
                    response.prompt = true;
                } else if character == '\u{8}' {
                    if !self.buffer.as_str().is_empty() {
                        let n = self.buffer.as_str().unicode_len();
                        self.buffer = self.buffer.as_str().substring_char(0, n - 1).to_owned();
                        proof {
                            assert(old(self).line().drop_last() =~= old(self).line().subrange(0, n - 1));
                        }
                        response.erase = true;
                    }
                } else {
                    response.echo = Some(character);
                    push_char(&mut self.buffer, character);
                }
            },
            Key::RawKey(name) => {
                response.raw_key = Some(name);
            },
        }
        response
    }

    /// Reads `scancode` with `decoder` and answers the key it completes, if
    /// any and if the terminal can answer it; the command line changes only
    /// where the key is answered.
    pub fn answer_scancode(&mut self, decoder: &mut KeyDecoder, scancode: u8) -> (r: ScancodeAnswer)
        ensures
            *final(decoder) == decoder_after(*old(decoder), scancode),
            match key_after(*old(decoder), scancode) {
                None => r is NoKey && final(self).line() == old(self).line(),
                Some(k) => if key_allowed(old(self).line(), k) {
                    &&& r matches ScancodeAnswer::Answer(a) && answers(old(self).line(), k, a)
                    &&& final(self).line() == next_line(old(self).line(), k)
                } else {
                    r is BlankLineEntered && final(self).line() == old(self).line()
                },
            },
    {
        match decoder.decode(scancode) {
            None => ScancodeAnswer::NoKey,
            Some(key) => {
                if self.can_answer(&key) {
                    ScancodeAnswer::Answer(self.handle_key(key))
                } else {
                    ScancodeAnswer::BlankLineEntered
                }
            },
        }
    }

    /// Reads `scancode` with `decoder` and answers the key it completes, if
    /// any.
    pub fn handle_scancode(&mut self, decoder: &mut KeyDecoder, scancode: u8) -> (r: Option<Response>)
        requires
            key_after(*old(decoder), scancode) matches Some(k) ==> key_allowed(old(self).line(), k),
        ensures
            *final(decoder) == decoder_after(*old(decoder), scancode),
            match key_after(*old(decoder), scancode) {
                None => r is None && final(self).line() == old(self).line(),
                Some(k) => {
                    &&& r matches Some(a) && answers(old(self).line(), k, a)
                    &&& final(self).line() == next_line(old(self).line(), k)
                },
            },
    {
        match self.answer_scancode(decoder, scancode) {
            ScancodeAnswer::NoKey => None,
            ScancodeAnswer::Answer(a) => Some(a),
            ScancodeAnswer::BlankLineEntered => None,
        }
    }
}

/// The terminal refuses only a newline on a non-empty line of whitespace
/// alone: every key is answered on a line with a character that is not
/// whitespace, and on an empty line.
pub proof fn lemma_refused_only_on_blank_line(line: Seq<char>, key: Key)
    ensures
        (exists|i: int| 0 <= i < line.len() && !is_white_space(#[trigger] line[i])) ==> key_allowed(line, key),
        line.len() == 0 ==> key_allowed(line, key),
        line.len() > 0 && all_white_space(line) ==> !key_allowed(line, Key::Unicode(enter_char())),
{
    lemma_has_word_iff_non_white_space(line);
    if line.len() > 0 && all_white_space(line) {
        assert(!exists|i: int| 0 <= i < line.len() && !is_white_space(#[trigger] line[i]));
    }
}

/// Typing a character and then a backspace leaves the command line as it was.
pub proof fn lemma_backspace_undoes_typing(line: Seq<char>, c: char)
    requires
        c != enter_char(),
        c != backspace_char(),
    ensures
        next_line(next_line(line, Key::Unicode(c)), Key::Unicode(backspace_char())) == line,
{
    assert(line.push(c).drop_last() =~= line);
}

/// After a newline the command line is empty, whatever it held.
pub proof fn lemma_enter_clears_line(line: Seq<char>)
    ensures
        next_line(line, Key::Unicode(enter_char())) == Seq::<char>::empty(),
{
}

/// The command line never holds a newline or a backspace: each key keeps it
/// free of them.
pub proof fn lemma_line_has_no_control_chars(line: Seq<char>, key: Key)
    requires
        forall|i: int| 0 <= i < line.len() ==> line[i] != enter_char() && line[i] != backspace_char(),
    ensures
        forall|i: int| 0 <= i < next_line(line, key).len() ==> #[trigger] next_line(line, key)[i] != enter_char()
            && next_line(line, key)[i] != backspace_char(),
{
    let n = next_line(line, key);
    assert forall|i: int| 0 <= i < n.len() implies #[trigger] n[i] != enter_char() && n[i] != backspace_char() by {
        match key {
            Key::Unicode(c) => {
                if c != enter_char() && c != backspace_char() && i < line.len() {
                    assert(n[i] == line[i]);
                } else if c == backspace_char() && line.len() > 0 {
                    assert(n[i] == line[i]);
                }
            },
            Key::RawKey(_) => {},
        }
    }
}

} // verus!
