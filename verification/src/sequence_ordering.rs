use vstd::prelude::*;
use crate::image_sequence::ImageSequenceItem;
use crate::path_text::{ascii_lower, ascii_lowercase, chars_of, file_name_of, path_file_name};

verus! {

/// How an image sequence is arranged for previous and next navigation.
#[derive(Debug, Clone, Copy, PartialEq, Eq, Structural)]
pub enum SequenceOrdering {
    NewestModifiedFirst,
    NaturalName,
    SizeLargestFirst,
    SizeSmallestFirst,
}

impl Default for SequenceOrdering {
    fn default() -> (ordering: Self)
        ensures
            ordering == SequenceOrdering::NewestModifiedFirst,
    {
        SequenceOrdering::NewestModifiedFirst
    }
}

/// The outcome of comparing two values: the first one sorts before, with, or
/// after the second.
#[derive(Debug, Clone, Copy, PartialEq, Eq, Structural)]
pub enum Comparison {
    Less,
    Equal,
    Greater,
}

impl Comparison {
    /// The outcome with the two compared values swapped.
    pub open spec fn flipped(self) -> Comparison {
        match self {
            Comparison::Less => Comparison::Greater,
            Comparison::Equal => Comparison::Equal,
            Comparison::Greater => Comparison::Less,
        }
    }

    /// This outcome, unless it is `Equal`, in which case `next` decides.
    pub open spec fn or_else(self, next: Comparison) -> Comparison {
        match self {
            Comparison::Equal => next,
            _ => self,
        }
    }
}

/// The usual order of two integers.
pub open spec fn compare_ints(a: int, b: int) -> Comparison {
    if a < b {
        Comparison::Less
    } else if a > b {
        Comparison::Greater
    } else {
        Comparison::Equal
    }
}

/// The lexicographic order of two character sequences, by code point. On
/// text this is the order of `str`'s `Ord`, which compares UTF-8 bytes: UTF-8
/// keeps the order of code points.
pub open spec fn text_order(a: Seq<char>, b: Seq<char>) -> Comparison
    decreases a.len(),
{
    if a.len() == 0 {
        if b.len() == 0 {
            Comparison::Equal
        } else {
            Comparison::Less
        }
    } else if b.len() == 0 {
        Comparison::Greater
    } else if a[0] < b[0] {
        Comparison::Less
    } else if a[0] > b[0] {
        Comparison::Greater
    } else {
        text_order(a.drop_first(), b.drop_first())
    }
}

/// What `char::to_lowercase` yields for `c`: its lowercase mapping as one or
/// more characters.
pub uninterp spec fn lowercase_of(c: char) -> Seq<char>;

/// A character of the ASCII range.
pub open spec fn is_ascii_char(c: char) -> bool {
    (c as u32) < 128
}

/// The lowercase mapping of `c`: for an ASCII character its ASCII small
/// form, which is what `char::to_lowercase` yields there; otherwise
/// `lowercase_of(c)`.
pub open spec fn char_lowercase(c: char) -> Seq<char> {
    if is_ascii_char(c) {
        seq![ascii_lower(c)]
    } else {
        lowercase_of(c)
    }
}

/// Calls `char::to_lowercase` and collects the characters it yields. The
/// contract names the result, `lowercase_of(c)`, and states the mapping std
/// documents for ASCII: a capital letter yields its small letter, any other
/// ASCII character yields itself.
#[verifier::external_body]
fn lowercase_chars(c: char) -> (lower: Vec<char>)
    ensures
        lower@ == lowercase_of(c),
        is_ascii_char(c) ==> lower@ == seq![ascii_lower(c)],
{
    c.to_lowercase().collect()
}

pub open spec fn is_digit(c: char) -> bool {
    '0' <= c && c <= '9'
}

pub open spec fn digit_value(c: char) -> int {
    (c as u32) - ('0' as u32)
}

/// The index just past the run of ASCII digits that starts at `i`.
pub open spec fn digit_run_end(s: Seq<char>, i: int) -> int
    decreases s.len() - i,
{
    if 0 <= i < s.len() && is_digit(s[i]) {
        digit_run_end(s, i + 1)
    } else {
        i
    }
}

/// The decimal number written by the digits `s[start..end]`.
pub open spec fn decimal_value(s: Seq<char>, start: int, end: int) -> int
    decreases end - start,
{
    if end <= start {
        0
    } else {
        decimal_value(s, start, end - 1) * 10 + digit_value(s[end - 1])
    }
}

/// `n`, or the largest `u128` where `n` is larger.
pub open spec fn saturate(n: int) -> u128 {
    if n > u128::MAX {
        u128::MAX
    } else {
        n as u128
    }
}

/// Where the run of digits that starts at `i` ends, and what lies around it.
pub proof fn lemma_digit_run_end_bounds(s: Seq<char>, i: int)
    requires
        0 <= i <= s.len(),
    ensures
        i <= digit_run_end(s, i) <= s.len(),
        i < s.len() && is_digit(s[i]) ==> i < digit_run_end(s, i),
        forall|k: int| i <= k < digit_run_end(s, i) ==> is_digit(#[trigger] s[k]),
        digit_run_end(s, i) < s.len() ==> !is_digit(s[digit_run_end(s, i)]),
    decreases s.len() - i,
{
    if i < s.len() && is_digit(s[i]) {
        lemma_digit_run_end_bounds(s, i + 1);
    }
}

/// The order in which names are shown when sorted naturally: where both names
/// have a digit at the current place, the two runs of digits compare as
/// numbers (saturating at the largest `u128`); otherwise the characters
/// compare by their lowercase mappings. When one name runs out, the shorter
/// name, by its full length, comes first.
pub open spec fn natural_order_from(a: Seq<char>, b: Seq<char>, i: int, j: int) -> Comparison
    decreases a.len() - i + b.len() - j,
    when 0 <= i <= a.len() && 0 <= j <= b.len()
{
    if i < a.len() && j < b.len() {
        if is_digit(a[i]) && is_digit(b[j]) {
            proof {
                lemma_digit_run_end_bounds(a, i);
                lemma_digit_run_end_bounds(b, j);
            }
            let a_end = digit_run_end(a, i);
            let b_end = digit_run_end(b, j);
            let numbers = compare_ints(
                saturate(decimal_value(a, i, a_end)) as int,
                saturate(decimal_value(b, j, b_end)) as int,
            );
            if numbers != Comparison::Equal {
                numbers
            } else {
                natural_order_from(a, b, a_end, b_end)
            }
        } else {
            let letters = text_order(char_lowercase(a[i]), char_lowercase(b[j]));
            if letters != Comparison::Equal {
                letters
            } else {
                natural_order_from(a, b, i + 1, j + 1)
            }
        }
    } else {
        compare_ints(a.len() as int, b.len() as int)
    }
}

pub open spec fn natural_order(a: Seq<char>, b: Seq<char>) -> Comparison {
    natural_order_from(a, b, 0, 0)
}

/// The file name of a path as text, or the empty text where it has none.
pub open spec fn file_name_text(path: Seq<char>) -> Seq<char> {
    match path_file_name(path) {
        Some(name) => name,
        None => Seq::empty(),
    }
}

/// Natural order of the file names of two paths.
pub open spec fn natural_path_order(a: Seq<char>, b: Seq<char>) -> Comparison {
    natural_order(file_name_text(a), file_name_text(b))
}

/// The order that the chosen sequence ordering puts first.
pub open spec fn primary_order(
    a: ImageSequenceItem,
    b: ImageSequenceItem,
    ordering: SequenceOrdering,
) -> Comparison {
    match ordering {
        SequenceOrdering::NewestModifiedFirst => compare_ints(b.modified as int, a.modified as int),
        SequenceOrdering::NaturalName => natural_path_order(a.path@, b.path@),
        SequenceOrdering::SizeLargestFirst => compare_ints(b.size_bytes as int, a.size_bytes as int),
        SequenceOrdering::SizeSmallestFirst => compare_ints(a.size_bytes as int, b.size_bytes as int),
    }
}

/// The order of two images in a sequence: the chosen ordering first, then the
/// natural order of their file names, then the order of their full paths.
pub open spec fn image_order(
    a: ImageSequenceItem,
    b: ImageSequenceItem,
    ordering: SequenceOrdering,
) -> Comparison {
    primary_order(a, b, ordering).or_else(natural_path_order(a.path@, b.path@)).or_else(
        text_order(a.path@, b.path@),
    )
}

fn compare_numbers(a: i128, b: i128) -> (order: Comparison)
    ensures
        order == compare_ints(a as int, b as int),
{
    if a < b {
        Comparison::Less
    } else if a > b {
        Comparison::Greater
    } else {
        Comparison::Equal
    }
}

fn compare_sizes(a: u64, b: u64) -> (order: Comparison)
    ensures
        order == compare_ints(a as int, b as int),
{
    if a < b {
        Comparison::Less
    } else if a > b {
        Comparison::Greater
    } else {
        Comparison::Equal
    }
}

fn compare_lengths(a: usize, b: usize) -> (order: Comparison)
    ensures
        order == compare_ints(a as int, b as int),
{
    if a < b {
        Comparison::Less
    } else if a > b {
        Comparison::Greater
    } else {
        Comparison::Equal
    }
}

proof fn lemma_text_order_step(a: Seq<char>, b: Seq<char>, k: int)
    requires
        0 <= k < a.len(),
        k < b.len(),
        a[k] == b[k],
    ensures
        text_order(a.skip(k), b.skip(k)) == text_order(a.skip(k + 1), b.skip(k + 1)),
{
    assert(a.skip(k).drop_first() =~= a.skip(k + 1));
    assert(b.skip(k).drop_first() =~= b.skip(k + 1));
}

/// The lexicographic order of two character sequences.
fn text_order_of(a: &Vec<char>, b: &Vec<char>) -> (order: Comparison)
    ensures
        order == text_order(a@, b@),
{
    let mut k: usize = 0;
    assert(a@.skip(0) =~= a@);
    assert(b@.skip(0) =~= b@);
    while k < a.len() && k < b.len()
        invariant
            k <= a.len(),
            k <= b.len(),
            text_order(a@.skip(k as int), b@.skip(k as int)) == text_order(a@, b@),
        decreases a.len() - k,
    {
        let x: char = a[k];
        let y: char = b[k];
        if x < y {
            return Comparison::Less;
        }
        if x > y {
            return Comparison::Greater;
        }
        proof {
            lemma_text_order_step(a@, b@, k as int);
        }
        k = k + 1;
    }
    compare_lengths(a.len() - k, b.len() - k)
}

fn digit_of(c: char) -> (value: u128)
    requires
        is_digit(c),
    ensures
        value == digit_value(c),
{
    ((c as u32) - 48) as u128
}

/// `value * 10`, or the largest `u128` where that overflows.
fn saturating_times_ten(value: u128) -> (result: u128)
    ensures
        result == saturate(value * 10),
{
    if value > u128::MAX / 10 {
        u128::MAX
    } else {
        value * 10
    }
}

/// `value + digit`, or the largest `u128` where that overflows.
fn saturating_plus(value: u128, digit: u128) -> (result: u128)
    ensures
        result == saturate(value + digit),
{
    value.saturating_add(digit)
}

proof fn lemma_saturated_step(v: int, d: int)
    requires
        v >= 0,
        0 <= d < 10,
    ensures
        saturate(saturate(saturate(v) * 10) + d) == saturate(v * 10 + d),
{
}

proof fn lemma_decimal_value_nonnegative(s: Seq<char>, start: int, end: int)
    requires
        forall|k: int| start <= k < end ==> is_digit(#[trigger] s[k]),
    ensures
        decimal_value(s, start, end) >= 0,
    decreases end - start,
{
    if end > start {
        lemma_decimal_value_nonnegative(s, start, end - 1);
    }
}

/// Reads the run of digits that starts at `start` as a number, saturating at
/// the largest `u128`, and returns it with the index just past the run.
fn take_number(chars: &Vec<char>, start: usize) -> (taken: (u128, usize))
    requires
        start < chars.len(),
    ensures
        taken.1 == digit_run_end(chars@, start as int),
        taken.0 == saturate(decimal_value(chars@, start as int, taken.1 as int)),
{
    let mut value: u128 = 0;
    let mut index: usize = start;
    proof {
        lemma_digit_run_end_bounds(chars@, start as int);
    }
    while index < chars.len() && '0' <= chars[index] && chars[index] <= '9'
        invariant
            start <= index <= chars.len(),
            digit_run_end(chars@, index as int) == digit_run_end(chars@, start as int),
            value == saturate(decimal_value(chars@, start as int, index as int)),
            forall|k: int| start <= k < index ==> is_digit(#[trigger] chars@[k]),
        decreases chars.len() - index,
    {
        let digit: u128 = digit_of(chars[index]);
        proof {
            lemma_decimal_value_nonnegative(chars@, start as int, index as int);
            lemma_saturated_step(decimal_value(chars@, start as int, index as int), digit as int);
        }
        value = saturating_plus(saturating_times_ten(value), digit);
        index = index + 1;
    }
    (value, index)
}

/// The natural order of two names: see `natural_order_from`.
pub fn natural_str_order(left: &str, right: &str) -> (order: Comparison)
    ensures
        order == natural_order(left@, right@),
{
    let left_chars: Vec<char> = chars_of(left);
    let right_chars: Vec<char> = chars_of(right);
    let mut left_index: usize = 0;
    let mut right_index: usize = 0;
    while left_index < left_chars.len() && right_index < right_chars.len()
        invariant
            left_chars@ == left@,
            right_chars@ == right@,
            left_index <= left_chars.len(),
            right_index <= right_chars.len(),
            natural_order_from(left@, right@, left_index as int, right_index as int)
                == natural_order(left@, right@),
        decreases left_chars.len() - left_index + right_chars.len() - right_index,
    {
        let l: char = left_chars[left_index];
        let r: char = right_chars[right_index];
        if '0' <= l && l <= '9' && '0' <= r && r <= '9' {
            proof {
                lemma_digit_run_end_bounds(left@, left_index as int);
                lemma_digit_run_end_bounds(right@, right_index as int);
            }
            let (left_number, next_left) = take_number(&left_chars, left_index);
            let (right_number, next_right) = take_number(&right_chars, right_index);
            let numbers: Comparison = compare_numbers_u128(left_number, right_number);
            if numbers != Comparison::Equal {
                return numbers;
            }
            left_index = next_left;
            right_index = next_right;
        } else {
            let l_lower: Vec<char> = lowercase_chars(l);
            let r_lower: Vec<char> = lowercase_chars(r);
            let letters: Comparison = text_order_of(&l_lower, &r_lower);
            if letters != Comparison::Equal {
                return letters;
            }
            left_index = left_index + 1;
            right_index = right_index + 1;
        }
    }
    compare_lengths(left_chars.len(), right_chars.len())
}

fn compare_numbers_u128(a: u128, b: u128) -> (order: Comparison)
    ensures
        order == compare_ints(a as int, b as int),
{
    if a < b {
        Comparison::Less
    } else if a > b {
        Comparison::Greater
    } else {
        Comparison::Equal
    }
}

/// Natural order of the file names of two paths; a path without a file name
/// sorts as the empty name.
fn natural_path_order_of(left: &str, right: &str) -> (order: Comparison)
    ensures
        order == natural_path_order(left@, right@),
{
    let left_name: &str = match file_name_of(left) {
        Some(name) => name,
        None => "",
    };
    let right_name: &str = match file_name_of(right) {
        Some(name) => name,
        None => "",
    };
    proof {
        reveal_strlit("");
    }
    natural_str_order(left_name, right_name)
}

/// The order of two paths as text.
fn stable_path_order(left: &str, right: &str) -> (order: Comparison)
    ensures
        order == text_order(left@, right@),
{
    let left_chars: Vec<char> = chars_of(left);
    let right_chars: Vec<char> = chars_of(right);
    text_order_of(&left_chars, &right_chars)
}

/// What the sequence ordering reads of an image.
pub trait OrderedImage {
    fn path(&self) -> &str;

    fn modified(&self) -> i128;

    fn size_bytes(&self) -> u64;
}

impl OrderedImage for ImageSequenceItem {
    fn path(&self) -> (path: &str)
        ensures
            path@ == self.path@,
    {
        self.path.as_str()
    }

    fn modified(&self) -> (modified: i128)
        ensures
            modified == self.modified,
    {
        self.modified
    }

    fn size_bytes(&self) -> (size_bytes: u64)
        ensures
            size_bytes == self.size_bytes,
    {
        self.size_bytes
    }
}

/// Compares two images as the sequence ordering arranges them.
pub fn compare_images(
    left: &ImageSequenceItem,
    right: &ImageSequenceItem,
    ordering: SequenceOrdering,
) -> (order: Comparison)
    ensures
        order == image_order(*left, *right, ordering),
{
    let primary: Comparison = match ordering {
        SequenceOrdering::NewestModifiedFirst => compare_numbers(right.modified(), left.modified()),
        SequenceOrdering::NaturalName => natural_path_order_of(left.path(), right.path()),
        SequenceOrdering::SizeLargestFirst => compare_sizes(right.size_bytes(), left.size_bytes()),
        SequenceOrdering::SizeSmallestFirst => compare_sizes(left.size_bytes(), right.size_bytes()),
    };
    if primary != Comparison::Equal {
        return primary;
    }
    let natural: Comparison = natural_path_order_of(left.path(), right.path());
    if natural != Comparison::Equal {
        return natural;
    }
    stable_path_order(left.path(), right.path())
}

/// `sorted` with `x` inserted after the last image that does not sort after
/// it: each image that sorts after `x` is passed over from the end.
pub open spec fn insert_sorted(
    sorted: Seq<ImageSequenceItem>,
    x: ImageSequenceItem,
    ordering: SequenceOrdering,
) -> Seq<ImageSequenceItem>
    decreases sorted.len(),
{
    if sorted.len() == 0 {
        seq![x]
    } else if image_order(sorted.last(), x, ordering) == Comparison::Greater {
        insert_sorted(sorted.drop_last(), x, ordering).push(sorted.last())
    } else {
        sorted.push(x)
    }
}

/// The images arranged by the sequence ordering: each image in turn is
/// inserted into the arrangement of those before it. Images that compare
/// equal keep their relative order.
pub open spec fn sorted_images(
    images: Seq<ImageSequenceItem>,
    ordering: SequenceOrdering,
) -> Seq<ImageSequenceItem>
    decreases images.len(),
{
    if images.len() == 0 {
        images
    } else {
        insert_sorted(sorted_images(images.drop_last(), ordering), images.last(), ordering)
    }
}

proof fn lemma_insert_scan_step(
    prefix: Seq<ImageSequenceItem>,
    x: ImageSequenceItem,
    ordering: SequenceOrdering,
    j: int,
)
    requires
        0 < j <= prefix.len(),
        image_order(prefix[j - 1], x, ordering) == Comparison::Greater,
    ensures
        insert_sorted(prefix.take(j), x, ordering) + prefix.skip(j) == insert_sorted(
            prefix.take(j - 1),
            x,
            ordering,
        ) + prefix.skip(j - 1),
{
    assert(prefix.take(j).drop_last() =~= prefix.take(j - 1));
    assert(prefix.take(j).last() == prefix[j - 1]);
    let rest = insert_sorted(prefix.take(j - 1), x, ordering);
    assert(rest.push(prefix[j - 1]) + prefix.skip(j) =~= rest + prefix.skip(j - 1));
}

/// Arranges `images` in place by the sequence ordering. The arrangement
/// keeps every image exactly once; each image sorts no later than the one
/// after it; images the ordering puts level keep their relative order; by
/// modification time or size, every image comes no later than every image
/// after it; and so it does by every ordering wherever the ordering compares
/// the images transitively.
pub fn sort_images(images: &mut Vec<ImageSequenceItem>, ordering: SequenceOrdering)
    ensures
        final(images)@ == sorted_images(old(images)@, ordering),
        final(images)@.to_multiset() == old(images)@.to_multiset(),
        final(images)@.len() == old(images)@.len(),
        adjacent_in_order(final(images)@, ordering),
        forall|e: ImageSequenceItem|
            #[trigger] level_with(final(images)@, e, ordering) == level_with(old(images)@, e, ordering),
        ordering != SequenceOrdering::NaturalName ==> in_primary_order(final(images)@, ordering),
        order_transitive_on(old(images)@, ordering) ==> in_order(final(images)@, ordering),
{
    proof {
        lemma_sorted_images_permutes(images@, ordering);
        lemma_sorted_images_adjacent(images@, ordering);
        assert forall|e: ImageSequenceItem|
            #[trigger] level_with(sorted_images(images@, ordering), e, ordering) == level_with(
                images@,
                e,
                ordering,
            ) by {
            lemma_sorted_images_stable(images@, ordering, e);
        }
        if ordering != SequenceOrdering::NaturalName {
            lemma_sorted_images_in_primary_order(images@, ordering);
        }
        if order_transitive_on(images@, ordering) {
            lemma_sorted_images_in_order(images@, ordering);
        }
    }
    let ghost original = images@;
    let n: usize = images.len();
    let mut i: usize = 0;
    assert(original.take(0) =~= Seq::<ImageSequenceItem>::empty());
    assert(images@ =~= sorted_images(original.take(0), ordering) + original.skip(0));
    while i < n
        invariant
            n == original.len(),
            i <= n,
            images@ == sorted_images(original.take(i as int), ordering) + original.skip(i as int),
            sorted_images(original.take(i as int), ordering).len() == i,
        decreases n - i,
    {
        let ghost prefix = sorted_images(original.take(i as int), ordering);
        assert(images@[i as int] == original[i as int]);
        let x: ImageSequenceItem = images.remove(i);
        assert(images@ =~= prefix + original.skip(i + 1));
        let mut j: usize = i;
        assert(prefix.take(i as int) =~= prefix);
        assert(prefix.skip(i as int) =~= Seq::<ImageSequenceItem>::empty());
        assert(insert_sorted(prefix, x, ordering) =~= insert_sorted(prefix.take(i as int), x, ordering)
            + prefix.skip(i as int));
        while j > 0 && compare_images(&images[j - 1], &x, ordering) == Comparison::Greater
            invariant
                j <= i,
                i < n,
                prefix.len() == i,
                images@ == prefix + original.skip(i + 1),
                insert_sorted(prefix, x, ordering) == insert_sorted(prefix.take(j as int), x, ordering)
                    + prefix.skip(j as int),
            decreases j,
        {
            proof {
                lemma_insert_scan_step(prefix, x, ordering, j as int);
            }
            j = j - 1;
        }
        proof {
            if j > 0 {
                assert(prefix.take(j as int).drop_last() =~= prefix.take(j - 1));
                assert(insert_sorted(prefix.take(j as int), x, ordering) =~= prefix.take(j as int).push(x));
            } else {
                assert(insert_sorted(prefix.take(0), x, ordering) =~= seq![x]);
            }
        }
        images.insert(j, x);
        proof {
            let next = original.take(i + 1);
            assert(next.drop_last() =~= original.take(i as int));
            assert(next.last() == x);
            assert(sorted_images(next, ordering) == insert_sorted(prefix, x, ordering));
            assert(images@ =~= insert_sorted(prefix, x, ordering) + original.skip(i + 1));
        }
        i = i + 1;
    }
    assert(original.take(n as int) =~= original);
    assert(original.skip(n as int) =~= Seq::<ImageSequenceItem>::empty());
    assert(images@ =~= sorted_images(original, ordering));
}

pub proof fn lemma_text_order_flips(a: Seq<char>, b: Seq<char>)
    ensures
        text_order(a, b) == text_order(b, a).flipped(),
    decreases a.len(),
{
    if a.len() > 0 && b.len() > 0 && a[0] == b[0] {
        lemma_text_order_flips(a.drop_first(), b.drop_first());
    }
}

pub proof fn lemma_text_order_equal(a: Seq<char>, b: Seq<char>)
    ensures
        text_order(a, b) == Comparison::Equal <==> a == b,
    decreases a.len(),
{
    if a.len() == 0 || b.len() == 0 {
        if a.len() != b.len() {
            assert(a != b);
        } else {
            assert(a =~= b);
        }
    } else if a[0] == b[0] {
        lemma_text_order_equal(a.drop_first(), b.drop_first());
        if a.drop_first() == b.drop_first() {
            assert(a =~= seq![a[0]] + a.drop_first());
            assert(b =~= seq![b[0]] + b.drop_first());
        }
        if a == b {
            assert(a.drop_first() == b.drop_first());
        }
    } else {
        assert(a != b);
        assert(a[0] < b[0] || a[0] > b[0]);
    }
}

proof fn lemma_natural_order_from_flips(a: Seq<char>, b: Seq<char>, i: int, j: int)
    requires
        0 <= i <= a.len(),
        0 <= j <= b.len(),
    ensures
        natural_order_from(a, b, i, j) == natural_order_from(b, a, j, i).flipped(),
    decreases a.len() - i + b.len() - j,
{
    if i < a.len() && j < b.len() {
        if is_digit(a[i]) && is_digit(b[j]) {
            lemma_digit_run_end_bounds(a, i);
            lemma_digit_run_end_bounds(b, j);
            lemma_natural_order_from_flips(a, b, digit_run_end(a, i), digit_run_end(b, j));
        } else {
            lemma_text_order_flips(char_lowercase(a[i]), char_lowercase(b[j]));
            lemma_natural_order_from_flips(a, b, i + 1, j + 1);
        }
    }
}

proof fn lemma_natural_order_from_same(a: Seq<char>, i: int)
    requires
        0 <= i <= a.len(),
    ensures
        natural_order_from(a, a, i, i) == Comparison::Equal,
    decreases a.len() - i,
{
    if i < a.len() {
        if is_digit(a[i]) {
            lemma_digit_run_end_bounds(a, i);
            lemma_natural_order_from_same(a, digit_run_end(a, i));
        } else {
            lemma_text_order_equal(char_lowercase(a[i]), char_lowercase(a[i]));
            lemma_natural_order_from_same(a, i + 1);
        }
    }
}

/// Natural order is antisymmetric: swapping the two names flips the outcome.
pub proof fn lemma_natural_order_flips(a: Seq<char>, b: Seq<char>)
    ensures
        natural_order(a, b) == natural_order(b, a).flipped(),
{
    lemma_natural_order_from_flips(a, b, 0, 0);
}

/// Every name is naturally equal to itself.
pub proof fn lemma_natural_order_reflexive(a: Seq<char>)
    ensures
        natural_order(a, a) == Comparison::Equal,
{
    lemma_natural_order_from_same(a, 0);
}

/// The order of images in a sequence is antisymmetric, it puts each image
/// level with itself, and it puts two images level only when they have the
/// same path.
pub proof fn lemma_image_order_laws(a: ImageSequenceItem, b: ImageSequenceItem, ordering: SequenceOrdering)
    ensures
        image_order(a, b, ordering) == image_order(b, a, ordering).flipped(),
        image_order(a, a, ordering) == Comparison::Equal,
        image_order(a, b, ordering) == Comparison::Equal ==> a.path@ == b.path@,
{
    lemma_natural_order_flips(file_name_text(a.path@), file_name_text(b.path@));
    lemma_natural_order_reflexive(file_name_text(a.path@));
    lemma_text_order_flips(a.path@, b.path@);
    lemma_text_order_equal(a.path@, b.path@);
    lemma_text_order_equal(a.path@, a.path@);
}

proof fn lemma_insert_sorted_multiset(
    sorted: Seq<ImageSequenceItem>,
    x: ImageSequenceItem,
    ordering: SequenceOrdering,
)
    ensures
        insert_sorted(sorted, x, ordering).to_multiset() == sorted.to_multiset().insert(x),
        insert_sorted(sorted, x, ordering).len() == sorted.len() + 1,
    decreases sorted.len(),
{
    broadcast use vstd::seq_lib::group_to_multiset_ensures;
    if sorted.len() == 0 {
        assert(seq![x] =~= Seq::<ImageSequenceItem>::empty().push(x));
    } else if image_order(sorted.last(), x, ordering) == Comparison::Greater {
        lemma_insert_sorted_multiset(sorted.drop_last(), x, ordering);
        assert(sorted =~= sorted.drop_last().push(sorted.last()));
        assert(sorted.drop_last().push(sorted.last()).to_multiset() == sorted.drop_last().to_multiset().insert(sorted.last()));
    }
}

/// Arranging images neither adds, drops nor duplicates any of them.
pub proof fn lemma_sorted_images_permutes(images: Seq<ImageSequenceItem>, ordering: SequenceOrdering)
    ensures
        sorted_images(images, ordering).to_multiset() == images.to_multiset(),
        sorted_images(images, ordering).len() == images.len(),
    decreases images.len(),
{
    broadcast use vstd::seq_lib::group_to_multiset_ensures;
    if images.len() > 0 {
        lemma_sorted_images_permutes(images.drop_last(), ordering);
        lemma_insert_sorted_multiset(sorted_images(images.drop_last(), ordering), images.last(), ordering);
        assert(images =~= images.drop_last().push(images.last()));
    }
}

/// Each image sorts no later than the image after it.
pub open spec fn adjacent_in_order(images: Seq<ImageSequenceItem>, ordering: SequenceOrdering) -> bool {
    forall|k: int|
        0 <= k < images.len() - 1 ==> #[trigger] image_order(images[k], images[k + 1], ordering)
            != Comparison::Greater
}

proof fn lemma_insert_sorted_adjacent(
    sorted: Seq<ImageSequenceItem>,
    x: ImageSequenceItem,
    ordering: SequenceOrdering,
)
    requires
        adjacent_in_order(sorted, ordering),
    ensures
        adjacent_in_order(insert_sorted(sorted, x, ordering), ordering),
        insert_sorted(sorted, x, ordering).len() == sorted.len() + 1,
        insert_sorted(sorted, x, ordering)[0] == x || (sorted.len() > 0 && insert_sorted(
            sorted,
            x,
            ordering,
        )[0] == sorted[0]),
        insert_sorted(sorted, x, ordering).last() == x || (sorted.len() > 0 && insert_sorted(
            sorted,
            x,
            ordering,
        ).last() == sorted.last() && image_order(sorted.last(), x, ordering)
            == Comparison::Greater),
    decreases sorted.len(),
{
    if sorted.len() == 0 {
    } else if image_order(sorted.last(), x, ordering) == Comparison::Greater {
        let rest = sorted.drop_last();
        assert(adjacent_in_order(rest, ordering)) by {
            assert forall|k: int| 0 <= k < rest.len() - 1 implies #[trigger] image_order(
                rest[k],
                rest[k + 1],
                ordering,
            ) != Comparison::Greater by {
                assert(image_order(sorted[k], sorted[k + 1], ordering) != Comparison::Greater);
            }
        }
        lemma_insert_sorted_adjacent(rest, x, ordering);
        let inserted = insert_sorted(rest, x, ordering);
        let result = inserted.push(sorted.last());
        lemma_image_order_laws(sorted.last(), x, ordering);
        assert forall|k: int| 0 <= k < result.len() - 1 implies #[trigger] image_order(
            result[k],
            result[k + 1],
            ordering,
        ) != Comparison::Greater by {
            if k < inserted.len() - 1 {
                assert(result[k] == inserted[k] && result[k + 1] == inserted[k + 1]);
            } else {
                assert(result[k] == inserted.last());
                assert(result[k + 1] == sorted.last());
                if inserted.last() != x {
                    assert(rest.len() > 0);
                    assert(inserted.last() == rest.last());
                    let m = sorted.len() - 2;
                    assert(rest.last() == sorted[m]);
                    assert(image_order(sorted[m], sorted[m + 1], ordering) != Comparison::Greater);
                }
            }
        }
        if rest.len() == 0 {
            assert(inserted[0] == x);
        } else {
            assert(rest[0] == sorted[0]);
        }
        assert(result[0] == inserted[0]);
    } else {
        let result = sorted.push(x);
        assert forall|k: int| 0 <= k < result.len() - 1 implies #[trigger] image_order(
            result[k],
            result[k + 1],
            ordering,
        ) != Comparison::Greater by {
            if k < sorted.len() - 1 {
                assert(image_order(sorted[k], sorted[k + 1], ordering) != Comparison::Greater);
            }
        }
    }
}

/// After arranging, each image sorts no later than the image after it.
pub proof fn lemma_sorted_images_adjacent(images: Seq<ImageSequenceItem>, ordering: SequenceOrdering)
    ensures
        adjacent_in_order(sorted_images(images, ordering), ordering),
    decreases images.len(),
{
    if images.len() > 0 {
        lemma_sorted_images_adjacent(images.drop_last(), ordering);
        lemma_insert_sorted_adjacent(sorted_images(images.drop_last(), ordering), images.last(), ordering);
    }
}

/// Every image sorts, by the chosen ordering alone, no later than every image
/// after it.
pub open spec fn in_primary_order(images: Seq<ImageSequenceItem>, ordering: SequenceOrdering) -> bool {
    forall|i: int, j: int|
        0 <= i < j < images.len() ==> #[trigger] primary_order(images[i], images[j], ordering)
            != Comparison::Greater
}

proof fn lemma_insert_sorted_contents(
    sorted: Seq<ImageSequenceItem>,
    x: ImageSequenceItem,
    ordering: SequenceOrdering,
)
    ensures
        forall|k: int|
            0 <= k < insert_sorted(sorted, x, ordering).len() ==> #[trigger] insert_sorted(
                sorted,
                x,
                ordering,
            )[k] == x || sorted.contains(insert_sorted(sorted, x, ordering)[k]),
{
    broadcast use vstd::seq_lib::group_to_multiset_ensures;
    lemma_insert_sorted_multiset(sorted, x, ordering);
    let r = insert_sorted(sorted, x, ordering);
    assert forall|k: int| 0 <= k < r.len() implies #[trigger] r[k] == x || sorted.contains(r[k]) by {
        assert(r.contains(r[k]));
        assert(r.to_multiset().count(r[k]) > 0);
        if r[k] != x {
            assert(sorted.to_multiset().count(r[k]) > 0);
        }
    }
}

proof fn lemma_insert_sorted_primary(
    sorted: Seq<ImageSequenceItem>,
    x: ImageSequenceItem,
    ordering: SequenceOrdering,
)
    requires
        ordering != SequenceOrdering::NaturalName,
        in_primary_order(sorted, ordering),
    ensures
        in_primary_order(insert_sorted(sorted, x, ordering), ordering),
    decreases sorted.len(),
{
    if sorted.len() == 0 {
    } else if image_order(sorted.last(), x, ordering) == Comparison::Greater {
        let rest = sorted.drop_last();
        let last = sorted.last();
        assert(in_primary_order(rest, ordering)) by {
            assert forall|i: int, j: int| 0 <= i < j < rest.len() implies #[trigger] primary_order(
                rest[i],
                rest[j],
                ordering,
            ) != Comparison::Greater by {
                assert(primary_order(sorted[i], sorted[j], ordering) != Comparison::Greater);
            }
        }
        lemma_insert_sorted_primary(rest, x, ordering);
        lemma_insert_sorted_contents(rest, x, ordering);
        lemma_insert_sorted_multiset(rest, x, ordering);
        let inner = insert_sorted(rest, x, ordering);
        let result = inner.push(last);
        assert forall|i: int, j: int| 0 <= i < j < result.len() implies #[trigger] primary_order(
            result[i],
            result[j],
            ordering,
        ) != Comparison::Greater by {
            if j < inner.len() {
                assert(primary_order(inner[i], inner[j], ordering) != Comparison::Greater);
            } else {
                assert(result[j] == last);
                assert(inner[i] == x || rest.contains(inner[i]));
                if inner[i] != x {
                    let k = choose|k: int| 0 <= k < rest.len() && rest[k] == inner[i];
                    assert(primary_order(sorted[k], sorted[sorted.len() - 1], ordering)
                        != Comparison::Greater);
                }
            }
        }
    } else {
        let last = sorted.last();
        let result = sorted.push(x);
        assert forall|i: int, j: int| 0 <= i < j < result.len() implies #[trigger] primary_order(
            result[i],
            result[j],
            ordering,
        ) != Comparison::Greater by {
            if j < sorted.len() {
                assert(primary_order(sorted[i], sorted[j], ordering) != Comparison::Greater);
            } else if i < sorted.len() - 1 {
                assert(primary_order(sorted[i], sorted[sorted.len() - 1], ordering)
                    != Comparison::Greater);
            }
        }
    }
}

/// Where the ordering is by modification time or by size, arranging puts the
/// images in that order: newest, largest or smallest first.
pub proof fn lemma_sorted_images_in_primary_order(
    images: Seq<ImageSequenceItem>,
    ordering: SequenceOrdering,
)
    requires
        ordering != SequenceOrdering::NaturalName,
    ensures
        in_primary_order(sorted_images(images, ordering), ordering),
    decreases images.len(),
{
    if images.len() > 0 {
        lemma_sorted_images_in_primary_order(images.drop_last(), ordering);
        lemma_insert_sorted_primary(sorted_images(images.drop_last(), ordering), images.last(), ordering);
    }
}

} // verus!

verus! {

/// The sequence ordering compares the images of `images` transitively: when
/// one image sorts no later than a second, and the second no later than a
/// third, the first sorts no later than the third.
pub open spec fn order_transitive_on(images: Seq<ImageSequenceItem>, ordering: SequenceOrdering) -> bool {
    forall|x: ImageSequenceItem, y: ImageSequenceItem, z: ImageSequenceItem|
        #![trigger image_order(x, y, ordering), image_order(y, z, ordering)]
        images.contains(x) && images.contains(y) && images.contains(z) && image_order(x, y, ordering)
            != Comparison::Greater && image_order(y, z, ordering) != Comparison::Greater
            ==> image_order(x, z, ordering) != Comparison::Greater
}

/// Every image sorts no later than every image after it.
pub open spec fn in_order(images: Seq<ImageSequenceItem>, ordering: SequenceOrdering) -> bool {
    forall|i: int, j: int|
        0 <= i < j < images.len() ==> #[trigger] image_order(images[i], images[j], ordering)
            != Comparison::Greater
}

proof fn lemma_adjacent_reaches(
    images: Seq<ImageSequenceItem>,
    ordering: SequenceOrdering,
    i: int,
    j: int,
)
    requires
        adjacent_in_order(images, ordering),
        order_transitive_on(images, ordering),
        0 <= i < j < images.len(),
    ensures
        image_order(images[i], images[j], ordering) != Comparison::Greater,
    decreases j - i,
{
    let k = j - 1;
    assert(image_order(images[k], images[k + 1], ordering) != Comparison::Greater);
    if j > i + 1 {
        lemma_adjacent_reaches(images, ordering, i, j - 1);
        assert(images.contains(images[i]));
        assert(images.contains(images[j - 1]));
        assert(images.contains(images[j]));
    }
}

/// Wherever the sequence ordering is transitive on the images, arranging puts
/// every image no later than every image after it; the natural order of
/// names is not transitive on every set of names, so the law asks it.
pub proof fn lemma_sorted_images_in_order(images: Seq<ImageSequenceItem>, ordering: SequenceOrdering)
    requires
        order_transitive_on(images, ordering),
    ensures
        in_order(sorted_images(images, ordering), ordering),
{
    broadcast use vstd::seq_lib::group_to_multiset_ensures;
    let sorted = sorted_images(images, ordering);
    lemma_sorted_images_adjacent(images, ordering);
    lemma_sorted_images_permutes(images, ordering);
    assert forall|x: ImageSequenceItem| sorted.contains(x) implies images.contains(x) by {
        assert(sorted.to_multiset().count(x) > 0);
    }
    assert(order_transitive_on(sorted, ordering));
    assert forall|i: int, j: int| 0 <= i < j < sorted.len() implies #[trigger] image_order(
        sorted[i],
        sorted[j],
        ordering,
    ) != Comparison::Greater by {
        lemma_adjacent_reaches(sorted, ordering, i, j);
    }
}


/// No character of `s` is an ASCII digit.
pub open spec fn has_no_digits(s: Seq<char>) -> bool {
    forall|k: int| 0 <= k < s.len() ==> !is_digit(#[trigger] s[k])
}

proof fn lemma_text_order_transitive(a: Seq<char>, b: Seq<char>, c: Seq<char>)
    requires
        text_order(a, b) != Comparison::Greater,
        text_order(b, c) != Comparison::Greater,
    ensures
        text_order(a, c) != Comparison::Greater,
    decreases a.len(),
{
    if a.len() > 0 && b.len() > 0 && c.len() > 0 && a[0] == b[0] && b[0] == c[0] {
        lemma_text_order_transitive(a.drop_first(), b.drop_first(), c.drop_first());
    }
}

proof fn lemma_natural_order_from_transitive(a: Seq<char>, b: Seq<char>, c: Seq<char>, i: int)
    requires
        has_no_digits(a),
        has_no_digits(b),
        has_no_digits(c),
        0 <= i <= a.len(),
        i <= b.len(),
        i <= c.len(),
        natural_order_from(a, b, i, i) != Comparison::Greater,
        natural_order_from(b, c, i, i) != Comparison::Greater,
    ensures
        natural_order_from(a, c, i, i) != Comparison::Greater,
    decreases a.len() - i,
{
    if i < a.len() && i < b.len() && i < c.len() {
        assert(!is_digit(a[i]) && !is_digit(b[i]) && !is_digit(c[i]));
        let la = char_lowercase(a[i]);
        let lb = char_lowercase(b[i]);
        let lc = char_lowercase(c[i]);
        lemma_text_order_flips(la, lb);
        lemma_text_order_flips(lb, lc);
        lemma_text_order_equal(la, lb);
        lemma_text_order_equal(lb, lc);
        lemma_text_order_equal(la, lc);
        if text_order(la, lb) != Comparison::Greater && text_order(lb, lc) != Comparison::Greater {
            lemma_text_order_transitive(la, lb, lc);
        }
        if text_order(la, lb) == Comparison::Equal && text_order(lb, lc) == Comparison::Equal {
            lemma_natural_order_from_transitive(a, b, c, i + 1);
        }
    }
}

/// Comparing first by one order and then by a second, where the first is
/// antisymmetric and transitive on `x`, `y`, `z` and the second transitive
/// where the first puts them level, is transitive on them.
proof fn lemma_or_else_transitive(
    xy: Comparison,
    yz: Comparison,
    xz: Comparison,
    yx: Comparison,
    zy: Comparison,
    zx: Comparison,
    rest_xy: Comparison,
    rest_yz: Comparison,
    rest_xz: Comparison,
)
    requires
        xy == yx.flipped(),
        yz == zy.flipped(),
        xz == zx.flipped(),
        xy != Comparison::Greater && yz != Comparison::Greater ==> xz != Comparison::Greater,
        yz != Comparison::Greater && zx != Comparison::Greater ==> yx != Comparison::Greater,
        zx != Comparison::Greater && xy != Comparison::Greater ==> zy != Comparison::Greater,
        xy == Comparison::Equal && yz == Comparison::Equal && rest_xy != Comparison::Greater
            && rest_yz != Comparison::Greater ==> rest_xz != Comparison::Greater,
        xy.or_else(rest_xy) != Comparison::Greater,
        yz.or_else(rest_yz) != Comparison::Greater,
    ensures
        xz.or_else(rest_xz) != Comparison::Greater,
{
}

/// Names that natural order is known to compare transitively: all without
/// digits, or all ASCII with plainly written numbers.
pub open spec fn orderable_names(x: Seq<char>, y: Seq<char>, z: Seq<char>) -> bool {
    ||| has_no_digits(x) && has_no_digits(y) && has_no_digits(z)
    ||| plain_ascii_name(x) && plain_ascii_name(y) && plain_ascii_name(z)
}

proof fn lemma_natural_path_order_transitive(x: Seq<char>, y: Seq<char>, z: Seq<char>)
    requires
        orderable_names(file_name_text(x), file_name_text(y), file_name_text(z)),
        natural_path_order(x, y) != Comparison::Greater,
        natural_path_order(y, z) != Comparison::Greater,
    ensures
        natural_path_order(x, z) != Comparison::Greater,
{
    let (nx, ny, nz) = (file_name_text(x), file_name_text(y), file_name_text(z));
    if has_no_digits(nx) && has_no_digits(ny) && has_no_digits(nz) {
        lemma_natural_order_from_transitive(nx, ny, nz, 0);
    } else {
        lemma_natural_order_from_transitive_plain(nx, ny, nz, 0);
    }
}

proof fn lemma_image_order_transitive(
    x: ImageSequenceItem,
    y: ImageSequenceItem,
    z: ImageSequenceItem,
    ordering: SequenceOrdering,
)
    requires
        orderable_names(file_name_text(x.path@), file_name_text(y.path@), file_name_text(z.path@)),
        image_order(x, y, ordering) != Comparison::Greater,
        image_order(y, z, ordering) != Comparison::Greater,
    ensures
        image_order(x, z, ordering) != Comparison::Greater,
{
    let (px, py, pz) = (x.path@, y.path@, z.path@);
    lemma_natural_order_flips(file_name_text(px), file_name_text(py));
    lemma_natural_order_flips(file_name_text(py), file_name_text(pz));
    lemma_natural_order_flips(file_name_text(px), file_name_text(pz));
    lemma_text_order_flips(px, py);
    lemma_text_order_flips(py, pz);
    lemma_text_order_flips(px, pz);
    if natural_path_order(px, py) != Comparison::Greater && natural_path_order(py, pz)
        != Comparison::Greater {
        lemma_natural_path_order_transitive(px, py, pz);
    }
    if natural_path_order(py, pz) != Comparison::Greater && natural_path_order(pz, px)
        != Comparison::Greater {
        lemma_natural_path_order_transitive(py, pz, px);
    }
    if natural_path_order(pz, px) != Comparison::Greater && natural_path_order(px, py)
        != Comparison::Greater {
        lemma_natural_path_order_transitive(pz, px, py);
    }
    if text_order(px, py) != Comparison::Greater && text_order(py, pz) != Comparison::Greater {
        lemma_text_order_transitive(px, py, pz);
    }
    let rest_xy = natural_path_order(px, py).or_else(text_order(px, py));
    let rest_yz = natural_path_order(py, pz).or_else(text_order(py, pz));
    let rest_xz = natural_path_order(px, pz).or_else(text_order(px, pz));
    if rest_xy != Comparison::Greater && rest_yz != Comparison::Greater {
        lemma_or_else_transitive(
            natural_path_order(px, py),
            natural_path_order(py, pz),
            natural_path_order(px, pz),
            natural_path_order(py, px),
            natural_path_order(pz, py),
            natural_path_order(pz, px),
            text_order(px, py),
            text_order(py, pz),
            text_order(px, pz),
        );
    }
    assert(image_order(x, y, ordering) == primary_order(x, y, ordering).or_else(rest_xy));
    assert(image_order(y, z, ordering) == primary_order(y, z, ordering).or_else(rest_yz));
    assert(image_order(x, z, ordering) == primary_order(x, z, ordering).or_else(rest_xz));
    lemma_or_else_transitive(
        primary_order(x, y, ordering),
        primary_order(y, z, ordering),
        primary_order(x, z, ordering),
        primary_order(y, x, ordering),
        primary_order(z, y, ordering),
        primary_order(z, x, ordering),
        rest_xy,
        rest_yz,
        rest_xz,
    );
}

/// The file names of `images` are all without digits, or all ASCII with
/// plainly written numbers.
pub open spec fn orderable_image_names(images: Seq<ImageSequenceItem>) -> bool {
    ||| forall|k: int|
        0 <= k < images.len() ==> has_no_digits(file_name_text(#[trigger] images[k].path@))
    ||| forall|k: int|
        0 <= k < images.len() ==> plain_ascii_name(file_name_text(#[trigger] images[k].path@))
}

/// Images whose file names are all without digits, or all ASCII names whose
/// numbers have no leading zeros and fit a `u128`, are ordered transitively
/// by every sequence ordering, so arranging them puts every image no later
/// than every image after it.
pub proof fn lemma_orderable_names_sort_in_order(
    images: Seq<ImageSequenceItem>,
    ordering: SequenceOrdering,
)
    requires
        orderable_image_names(images),
    ensures
        order_transitive_on(images, ordering),
        in_order(sorted_images(images, ordering), ordering),
{
    assert forall|x: ImageSequenceItem, y: ImageSequenceItem, z: ImageSequenceItem|
        #![trigger image_order(x, y, ordering), image_order(y, z, ordering)]
        images.contains(x) && images.contains(y) && images.contains(z) && image_order(x, y, ordering)
            != Comparison::Greater && image_order(y, z, ordering)
            != Comparison::Greater implies image_order(x, z, ordering) != Comparison::Greater by {
        let i = choose|i: int| 0 <= i < images.len() && images[i] == x;
        let j = choose|j: int| 0 <= j < images.len() && images[j] == y;
        let k = choose|k: int| 0 <= k < images.len() && images[k] == z;
        assert(orderable_names(
            file_name_text(images[i].path@),
            file_name_text(images[j].path@),
            file_name_text(images[k].path@),
        ));
        lemma_image_order_transitive(x, y, z, ordering);
    }
    lemma_sorted_images_in_order(images, ordering);
}


/// Every character of `s` is ASCII.
pub open spec fn is_ascii_text(s: Seq<char>) -> bool {
    forall|k: int| 0 <= k < s.len() ==> is_ascii_char(#[trigger] s[k])
}

proof fn lemma_ascii_lower_facts(c: char)
    requires
        is_ascii_char(c),
    ensures
        is_ascii_char(ascii_lower(c)),
        ascii_lower(ascii_lower(c)) == ascii_lower(c),
        is_digit(ascii_lower(c)) == is_digit(c),
        is_digit(c) ==> ascii_lower(c) == c,
{
}

proof fn lemma_lowercase_digit_runs(a: Seq<char>, la: Seq<char>, i: int)
    requires
        la.len() == a.len(),
        forall|k: int| 0 <= k < a.len() ==> #[trigger] la[k] == ascii_lower(a[k]),
        is_ascii_text(a),
        0 <= i <= a.len(),
    ensures
        digit_run_end(la, i) == digit_run_end(a, i),
        decimal_value(la, i, digit_run_end(a, i)) == decimal_value(a, i, digit_run_end(a, i)),
    decreases a.len() - i,
{
    lemma_digit_run_end_bounds(a, i);
    if i < a.len() {
        lemma_ascii_lower_facts(a[i]);
        if is_digit(a[i]) {
            lemma_lowercase_digit_runs(a, la, i + 1);
        }
    }
    lemma_decimal_value_agrees(a, la, i, digit_run_end(a, i));
}

proof fn lemma_decimal_value_agrees(a: Seq<char>, la: Seq<char>, start: int, end: int)
    requires
        la.len() == a.len(),
        forall|k: int| 0 <= k < a.len() ==> #[trigger] la[k] == ascii_lower(a[k]),
        is_ascii_text(a),
        0 <= start,
        end <= a.len(),
        forall|k: int| start <= k < end ==> is_digit(#[trigger] a[k]),
    ensures
        decimal_value(la, start, end) == decimal_value(a, start, end),
    decreases end - start,
{
    if end > start {
        lemma_ascii_lower_facts(a[end - 1]);
        lemma_decimal_value_agrees(a, la, start, end - 1);
    }
}

proof fn lemma_natural_order_from_lowercase(a: Seq<char>, b: Seq<char>, i: int, j: int)
    requires
        is_ascii_text(a),
        is_ascii_text(b),
        0 <= i <= a.len(),
        0 <= j <= b.len(),
    ensures
        natural_order_from(a, b, i, j) == natural_order_from(
            ascii_lowercase(a),
            ascii_lowercase(b),
            i,
            j,
        ),
    decreases a.len() - i + b.len() - j,
{
    let la = ascii_lowercase(a);
    let lb = ascii_lowercase(b);
    assert forall|k: int| 0 <= k < a.len() implies #[trigger] la[k] == ascii_lower(a[k]) by {}
    assert forall|k: int| 0 <= k < b.len() implies #[trigger] lb[k] == ascii_lower(b[k]) by {}
    if i < a.len() && j < b.len() {
        lemma_ascii_lower_facts(a[i]);
        lemma_ascii_lower_facts(b[j]);
        if is_digit(a[i]) && is_digit(b[j]) {
            lemma_lowercase_digit_runs(a, la, i);
            lemma_lowercase_digit_runs(b, lb, j);
            lemma_digit_run_end_bounds(a, i);
            lemma_digit_run_end_bounds(b, j);
            lemma_natural_order_from_lowercase(a, b, digit_run_end(a, i), digit_run_end(b, j));
        } else {
            lemma_natural_order_from_lowercase(a, b, i + 1, j + 1);
        }
    }
}

/// Natural order ignores ASCII case: two ASCII names compare as their
/// lowercase forms do.
pub proof fn lemma_natural_order_ignores_ascii_case(a: Seq<char>, b: Seq<char>)
    requires
        is_ascii_text(a),
        is_ascii_text(b),
    ensures
        natural_order(a, b) == natural_order(ascii_lowercase(a), ascii_lowercase(b)),
{
    lemma_natural_order_from_lowercase(a, b, 0, 0);
}

} // verus!

verus! {

/// A run of digits starts at `i` in `s`.
pub open spec fn run_start(s: Seq<char>, i: int) -> bool {
    0 <= i < s.len() && is_digit(s[i]) && (i == 0 || !is_digit(s[i - 1]))
}

/// Every run of digits in `s` writes its number without leading zeros, and
/// the number fits a `u128`.
pub open spec fn plain_numbers(s: Seq<char>) -> bool {
    forall|i: int|
        #[trigger] run_start(s, i) ==> (s[i] != '0' || digit_run_end(s, i) == i + 1) && decimal_value(
            s,
            i,
            digit_run_end(s, i),
        ) <= u128::MAX
}

/// An ASCII name whose numbers are written plainly.
pub open spec fn plain_ascii_name(s: Seq<char>) -> bool {
    is_ascii_text(s) && plain_numbers(s)
}

pub open spec fn pow10(n: nat) -> int
    decreases n,
{
    if n == 0 {
        1
    } else {
        10 * pow10((n - 1) as nat)
    }
}

proof fn lemma_pow10_monotonic(m: nat, n: nat)
    requires
        m <= n,
    ensures
        1 <= pow10(m) <= pow10(n),
    decreases n,
{
    if n > 0 {
        if m < n {
            lemma_pow10_monotonic(m, (n - 1) as nat);
        } else {
            lemma_pow10_monotonic(0, (n - 1) as nat);
        }
    }
}

proof fn lemma_decimal_value_bounds(s: Seq<char>, start: int, end: int)
    requires
        0 <= start <= end <= s.len(),
        forall|k: int| start <= k < end ==> is_digit(#[trigger] s[k]),
    ensures
        0 <= decimal_value(s, start, end) < pow10((end - start) as nat),
        end > start && s[start] != '0' ==> decimal_value(s, start, end) >= pow10(
            (end - start - 1) as nat,
        ),
    decreases end - start,
{
    if end > start {
        lemma_decimal_value_bounds(s, start, end - 1);
        assert(is_digit(s[end - 1]));
        if end - 1 == start {
            assert(decimal_value(s, start, end - 1) == 0);
        }
    }
}

/// Two plainly written runs of digits with the same number have the same
/// length.
proof fn lemma_equal_numbers_equal_runs(a: Seq<char>, b: Seq<char>, i: int)
    requires
        plain_numbers(a),
        plain_numbers(b),
        run_start(a, i),
        run_start(b, i),
        decimal_value(a, i, digit_run_end(a, i)) == decimal_value(b, i, digit_run_end(b, i)),
    ensures
        digit_run_end(a, i) == digit_run_end(b, i),
{
    lemma_digit_run_end_bounds(a, i);
    lemma_digit_run_end_bounds(b, i);
    let ea = digit_run_end(a, i);
    let eb = digit_run_end(b, i);
    lemma_decimal_value_bounds(a, i, ea);
    lemma_decimal_value_bounds(b, i, eb);
    assert(run_start(a, i));
    assert(run_start(b, i));
    if ea < eb {
        lemma_pow10_monotonic((ea - i) as nat, (eb - i - 1) as nat);
    }
    if eb < ea {
        lemma_pow10_monotonic((eb - i) as nat, (ea - i - 1) as nat);
    }
}

/// `i` is not inside a run of digits of `s`.
pub open spec fn at_token(s: Seq<char>, i: int) -> bool {
    0 < i < s.len() ==> !(is_digit(s[i - 1]) && is_digit(s[i]))
}

proof fn lemma_text_order_single(x: char, y: char)
    ensures
        text_order(seq![x], seq![y]) == (if x < y {
            Comparison::Less
        } else if x > y {
            Comparison::Greater
        } else {
            Comparison::Equal
        }),
{
    let (sx, sy) = (seq![x], seq![y]);
    assert(sx.drop_first() =~= Seq::<char>::empty());
    assert(sy.drop_first() =~= Seq::<char>::empty());
    assert(sx[0] == x && sy[0] == y && sx.len() == 1 && sy.len() == 1);
    assert(text_order(sx.drop_first(), sy.drop_first()) == Comparison::Equal);
}

proof fn lemma_plain_token(s: Seq<char>, i: int)
    requires
        plain_ascii_name(s),
        0 <= i < s.len(),
        at_token(s, i),
    ensures
        char_lowercase(s[i]) == seq![ascii_lower(s[i])],
        is_digit(ascii_lower(s[i])) == is_digit(s[i]),
        is_digit(s[i]) ==> ascii_lower(s[i]) == s[i],
        is_digit(s[i]) ==> run_start(s, i),
        is_digit(s[i]) ==> i < digit_run_end(s, i) <= s.len() && at_token(s, digit_run_end(s, i))
            && saturate(decimal_value(s, i, digit_run_end(s, i))) == decimal_value(
            s,
            i,
            digit_run_end(s, i),
        ),
        !is_digit(s[i]) ==> at_token(s, i + 1),
{
    lemma_ascii_lower_facts(s[i]);
    if is_digit(s[i]) {
        assert(run_start(s, i));
        lemma_digit_run_end_bounds(s, i);
        let e = digit_run_end(s, i);
        lemma_decimal_value_bounds(s, i, e);
        if 0 < e < s.len() {
            assert(is_digit(s[e - 1]));
        }
    }
}

proof fn lemma_natural_order_from_transitive_plain(a: Seq<char>, b: Seq<char>, c: Seq<char>, i: int)
    requires
        plain_ascii_name(a),
        plain_ascii_name(b),
        plain_ascii_name(c),
        0 <= i <= a.len(),
        i <= b.len(),
        i <= c.len(),
        at_token(a, i),
        at_token(b, i),
        at_token(c, i),
        natural_order_from(a, b, i, i) != Comparison::Greater,
        natural_order_from(b, c, i, i) != Comparison::Greater,
    ensures
        natural_order_from(a, c, i, i) != Comparison::Greater,
    decreases a.len() - i,
{
    if i < a.len() && i < b.len() && i < c.len() {
        lemma_plain_token(a, i);
        lemma_plain_token(b, i);
        lemma_plain_token(c, i);
        let (ka, kb, kc) = (ascii_lower(a[i]), ascii_lower(b[i]), ascii_lower(c[i]));
        lemma_text_order_single(ka, kb);
        lemma_text_order_single(kb, kc);
        lemma_text_order_single(ka, kc);
        if is_digit(a[i]) && is_digit(b[i]) && is_digit(c[i]) {
            let va = decimal_value(a, i, digit_run_end(a, i));
            let vb = decimal_value(b, i, digit_run_end(b, i));
            let vc = decimal_value(c, i, digit_run_end(c, i));
            if va == vb && vb == vc {
                lemma_equal_numbers_equal_runs(a, b, i);
                lemma_equal_numbers_equal_runs(b, c, i);
                lemma_natural_order_from_transitive_plain(a, b, c, digit_run_end(a, i));
            }
        } else if !is_digit(a[i]) && !is_digit(b[i]) && !is_digit(c[i]) {
            if ka == kb && kb == kc {
                lemma_natural_order_from_transitive_plain(a, b, c, i + 1);
            }
        }
    }
}

/// Natural order is transitive on names that are all without digits, or all
/// ASCII with numbers written without leading zeros that fit a `u128`.
/// Elsewhere it need not be: `0001`, `1a10` and `1B` compare in a cycle.
pub proof fn lemma_natural_order_transitive(a: Seq<char>, b: Seq<char>, c: Seq<char>)
    requires
        orderable_names(a, b, c),
        natural_order(a, b) != Comparison::Greater,
        natural_order(b, c) != Comparison::Greater,
    ensures
        natural_order(a, c) != Comparison::Greater,
{
    if has_no_digits(a) && has_no_digits(b) && has_no_digits(c) {
        lemma_natural_order_from_transitive(a, b, c, 0);
    } else {
        lemma_natural_order_from_transitive_plain(a, b, c, 0);
    }
}

/// The images of `images` that the ordering puts level with `e`, in their
/// order.
pub open spec fn level_with(
    images: Seq<ImageSequenceItem>,
    e: ImageSequenceItem,
    ordering: SequenceOrdering,
) -> Seq<ImageSequenceItem> {
    images.filter(|x: ImageSequenceItem| image_order(x, e, ordering) == Comparison::Equal)
}

proof fn lemma_level_is_shared(x: ImageSequenceItem, y: ImageSequenceItem, e: ImageSequenceItem, ordering: SequenceOrdering)
    requires
        image_order(x, e, ordering) == Comparison::Equal,
        image_order(y, e, ordering) == Comparison::Equal,
    ensures
        image_order(y, x, ordering) == Comparison::Equal,
{
    lemma_image_order_laws(x, e, ordering);
    lemma_image_order_laws(y, e, ordering);
    lemma_natural_order_reflexive(file_name_text(x.path@));
    lemma_text_order_equal(y.path@, x.path@);
    lemma_natural_order_flips(file_name_text(x.path@), file_name_text(e.path@));
}

proof fn lemma_push_level(s: Seq<ImageSequenceItem>, x: ImageSequenceItem, e: ImageSequenceItem, ordering: SequenceOrdering)
    ensures
        level_with(s.push(x), e, ordering) == if image_order(x, e, ordering) == Comparison::Equal {
            level_with(s, e, ordering).push(x)
        } else {
            level_with(s, e, ordering)
        },
{
    reveal(Seq::filter);
    assert(s.push(x).drop_last() =~= s);
}

proof fn lemma_insert_sorted_level(
    sorted: Seq<ImageSequenceItem>,
    x: ImageSequenceItem,
    e: ImageSequenceItem,
    ordering: SequenceOrdering,
)
    ensures
        level_with(insert_sorted(sorted, x, ordering), e, ordering) == if image_order(x, e, ordering)
            == Comparison::Equal {
            level_with(sorted, e, ordering).push(x)
        } else {
            level_with(sorted, e, ordering)
        },
    decreases sorted.len(),
{
    if sorted.len() == 0 {
        reveal(Seq::filter);
        assert(seq![x] =~= sorted.push(x));
        lemma_push_level(sorted, x, e, ordering);
    } else if image_order(sorted.last(), x, ordering) == Comparison::Greater {
        let rest = sorted.drop_last();
        let last = sorted.last();
        lemma_insert_sorted_level(rest, x, e, ordering);
        lemma_push_level(insert_sorted(rest, x, ordering), last, e, ordering);
        assert(sorted =~= rest.push(last));
        lemma_push_level(rest, last, e, ordering);
        if image_order(x, e, ordering) == Comparison::Equal && image_order(last, e, ordering)
            == Comparison::Equal {
            lemma_level_is_shared(x, last, e, ordering);
        }
    } else {
        lemma_push_level(sorted, x, e, ordering);
    }
}

/// Arranging keeps the relative order of the images the ordering puts level
/// with one another.
pub proof fn lemma_sorted_images_stable(
    images: Seq<ImageSequenceItem>,
    ordering: SequenceOrdering,
    e: ImageSequenceItem,
)
    ensures
        level_with(sorted_images(images, ordering), e, ordering) == level_with(images, e, ordering),
    decreases images.len(),
{
    if images.len() > 0 {
        lemma_sorted_images_stable(images.drop_last(), ordering, e);
        lemma_insert_sorted_level(sorted_images(images.drop_last(), ordering), images.last(), e, ordering);
        assert(images =~= images.drop_last().push(images.last()));
        lemma_push_level(images.drop_last(), images.last(), e, ordering);
    } else {
        assert(sorted_images(images, ordering) == images);
    }
}

} // verus!
