//! Names of track-level animations: `video_{track index}_{property}` and
//! `audio_{track index}_{property}`.

use vstd::prelude::*;

use crate::filter::AnimationTrack;
use crate::track::{AudioProperty, VideoProperty};

verus! {

/// A decimal digit.
pub open spec fn decimal_digit(n: nat) -> char {
    "0123456789"@[n as int]
}

/// A number in decimal, without leading zeros.
pub open spec fn decimal(n: nat) -> Seq<char>
    decreases n,
{
    if n < 10 {
        seq![decimal_digit(n)]
    } else {
        decimal(n / 10).push(decimal_digit(n % 10))
    }
}

/// The name of a video property.
pub open spec fn video_property_name(p: VideoProperty) -> Seq<char> {
    match p {
        VideoProperty::X => "x"@,
        VideoProperty::Y => "y"@,
        VideoProperty::ScaleX => "scale_x"@,
        VideoProperty::ScaleY => "scale_y"@,
        VideoProperty::Rotation => "rotation"@,
        VideoProperty::Opacity => "opacity"@,
    }
}

/// The name of an audio property.
pub open spec fn audio_property_name(p: AudioProperty) -> Seq<char> {
    match p {
        AudioProperty::Volume => "volume"@,
        AudioProperty::Pan => "pan"@,
    }
}

/// The name of a video track's animation.
pub open spec fn video_key(index: nat, p: VideoProperty) -> Seq<char> {
    "video_"@ + decimal(index) + "_"@ + video_property_name(p)
}

/// The name of an audio track's animation.
pub open spec fn audio_key(index: nat, p: AudioProperty) -> Seq<char> {
    "audio_"@ + decimal(index) + "_"@ + audio_property_name(p)
}

fn digit_text(n: usize) -> (r: &'static str)
    requires
        n < 10,
    ensures
        r@ == seq![decimal_digit(n as nat)],
{
    proof {
        reveal_strlit("0123456789");
        reveal_strlit("0");
        reveal_strlit("1");
        reveal_strlit("2");
        reveal_strlit("3");
        reveal_strlit("4");
        reveal_strlit("5");
        reveal_strlit("6");
        reveal_strlit("7");
        reveal_strlit("8");
        reveal_strlit("9");
    }
    match n {
        0 => "0",
        1 => "1",
        2 => "2",
        3 => "3",
        4 => "4",
        5 => "5",
        6 => "6",
        7 => "7",
        8 => "8",
        _ => "9",
    }
}

fn append_decimal(text: &mut String, n: usize)
    ensures
        final(text)@ == old(text)@ + decimal(n as nat),
    decreases n,
{
    if n < 10 {
        text.append(digit_text(n));
    } else {
        append_decimal(text, n / 10);
        text.append(digit_text(n % 10));
        assert(text@ =~= old(text)@ + decimal(n as nat));
    }
}

/// The name of a video track's animation.
pub fn video_key_text(index: usize, p: VideoProperty) -> (r: String)
    ensures
        r@ == video_key(index as nat, p),
{
    let mut text = "video_".to_owned();
    append_decimal(&mut text, index);
    text.append("_");
    text.append(
        match p {
            VideoProperty::X => "x",
            VideoProperty::Y => "y",
            VideoProperty::ScaleX => "scale_x",
            VideoProperty::ScaleY => "scale_y",
            VideoProperty::Rotation => "rotation",
            VideoProperty::Opacity => "opacity",
        },
    );
    text
}

/// The name of an audio track's animation.
pub fn audio_key_text(index: usize, p: AudioProperty) -> (r: String)
    ensures
        r@ == audio_key(index as nat, p),
{
    let mut text = "audio_".to_owned();
    append_decimal(&mut text, index);
    text.append("_");
    text.append(
        match p {
            AudioProperty::Volume => "volume",
            AudioProperty::Pan => "pan",
        },
    );
    text
}

/// An animation registered under a name.
#[derive(Debug, PartialEq)]
pub struct NamedAnimation {
    pub key: String,
    pub animation: AnimationTrack,
}

/// The place of the first animation registered under `key`, or the length of the list.
pub open spec fn key_place(list: Seq<NamedAnimation>, key: Seq<char>) -> int
    decreases list.len(),
{
    if list.len() == 0 {
        0
    } else if list[0].key@ == key {
        0
    } else {
        1 + key_place(list.skip(1), key)
    }
}

/// The animation registered under `key`.
pub open spec fn animation_at(list: Seq<NamedAnimation>, key: Seq<char>) -> Option<AnimationTrack> {
    let i = key_place(list, key);
    if i < list.len() {
        Some(list[i].animation)
    } else {
        None
    }
}

/// The list with `animation` registered under `key`, in place of what was there.
pub open spec fn registered(
    list: Seq<NamedAnimation>,
    key: String,
    animation: AnimationTrack,
) -> Seq<NamedAnimation> {
    let i = key_place(list, key@);
    if i < list.len() {
        list.update(i, NamedAnimation { key: list[i].key, animation })
    } else {
        list.push(NamedAnimation { key, animation })
    }
}

/// The place found by walking the list.
proof fn lemma_key_place(list: Seq<NamedAnimation>, key: Seq<char>, i: int)
    requires
        0 <= i <= list.len(),
        forall|j: int| 0 <= j < i ==> (#[trigger] list[j]).key@ != key,
        i < list.len() ==> list[i].key@ == key,
    ensures
        key_place(list, key) == i,
    decreases list.len(),
{
    if list.len() > 0 && i > 0 {
        assert(list[0].key@ != key);
        let rest = list.skip(1);
        assert forall|j: int| 0 <= j < i - 1 implies (#[trigger] rest[j]).key@ != key by {
            assert(rest[j] == list[j + 1]);
        }
        lemma_key_place(rest, key, i - 1);
    }
}

fn find_key(list: &Vec<NamedAnimation>, key: &String) -> (i: usize)
    ensures
        i == key_place(list@, key@),
        i <= list@.len(),
{
    let mut i: usize = 0;
    while i < list.len()
        invariant
            i <= list@.len(),
            forall|j: int| 0 <= j < i ==> (#[trigger] list@[j]).key@ != key@,
        decreases list@.len() - i,
    {
        if list[i].key == *key {
            proof {
                lemma_key_place(list@, key@, i as int);
            }
            return i;
        }
        i = i + 1;
    }
    proof {
        lemma_key_place(list@, key@, i as int);
    }
    i
}

/// Looks an animation up by its name.
pub fn find_animation(list: &Vec<NamedAnimation>, key: &String) -> (r: Option<AnimationTrack>)
    ensures
        r == animation_at(list@, key@),
{
    let i = find_key(list, key);
    if i < list.len() {
        Some(list[i].animation.clone())
    } else {
        None
    }
}

/// Registers an animation under a name, in place of what was there.
pub fn register(list: Vec<NamedAnimation>, key: String, animation: AnimationTrack) -> (r: Vec<
    NamedAnimation,
>)
    ensures
        r@ == registered(list@, key, animation),
{
    let mut list = list;
    let i = find_key(&list, &key);
    if i < list.len() {
        let kept = list[i].key.clone();
        list[i] = NamedAnimation { key: kept, animation };
    } else {
        list.push(NamedAnimation { key, animation });
    }
    list
}

/// What was registered last under a name is what is found there, and every other name keeps
/// what it had.
pub proof fn registered_is_found(
    list: Seq<NamedAnimation>,
    key: String,
    animation: AnimationTrack,
    other: Seq<char>,
)
    ensures
        animation_at(registered(list, key, animation), key@) == Some(animation),
        other != key@ ==> animation_at(registered(list, key, animation), other) == animation_at(
            list,
            other,
        ),
{
    let i = key_place(list, key@);
    lemma_key_place_bounds(list, key@);
    let new = registered(list, key, animation);
    lemma_key_place(new, key@, i);
    if other != key@ {
        let j = key_place(list, other);
        lemma_key_place_bounds(list, other);
        assert forall|k: int| 0 <= k < j implies (#[trigger] new[k]).key@ != other by {
            assert(list[k].key@ != other);
        }
        if j < list.len() {
            lemma_key_place(new, other, j);
        } else {
            assert forall|k: int| 0 <= k < new.len() implies (#[trigger] new[k]).key@ != other by {
                if k < list.len() {
                    assert(list[k].key@ != other);
                }
            }
            lemma_key_place(new, other, new.len() as int);
        }
    }
}

/// A decimal digit of a name.
pub open spec fn is_digit(c: char) -> bool {
    '0' <= c && c <= '9'
}

/// The number that digits make.
pub open spec fn digits_value(digits: Seq<char>) -> nat
    decreases digits.len(),
{
    if digits.len() == 0 {
        0
    } else {
        digits_value(digits.drop_last()) * 10 + (digits.last() as int - '0' as int) as nat
    }
}

/// A text without its plus sign, where it begins with one.
pub open spec fn without_plus(text: Seq<char>) -> Seq<char> {
    if text.len() > 0 && text[0] == '+' {
        text.skip(1)
    } else {
        text
    }
}

/// Whether a text is read as a track's index: digits, with a plus sign before them or none,
/// whose number fits an index.
pub open spec fn reads_index(text: Seq<char>) -> bool {
    let digits = without_plus(text);
    &&& digits.len() > 0
    &&& forall|i: int| 0 <= i < digits.len() ==> is_digit(#[trigger] digits[i])
    &&& digits_value(digits) <= usize::MAX
}

/// Whether a name is that of a video track's animation, whether or not the track exists.
pub open spec fn is_video_name(key: Seq<char>) -> bool {
    exists|index: Seq<char>, p: VideoProperty|
        reads_index(index) && key == #[trigger] named("video_"@, index, video_property_name(p))
}

/// Whether a name is that of an audio track's animation, whether or not the track exists.
pub open spec fn is_audio_name(key: Seq<char>) -> bool {
    exists|index: Seq<char>, p: AudioProperty|
        reads_index(index) && key == #[trigger] named("audio_"@, index, audio_property_name(p))
}

/// A name put together.
pub open spec fn named(lead: Seq<char>, index: Seq<char>, property: Seq<char>) -> Seq<char> {
    lead + index + "_"@ + property
}

/// Digits make no smaller a number than their beginning does.
proof fn lemma_digits_grow(digits: Seq<char>, n: int)
    requires
        0 <= n <= digits.len(),
    ensures
        digits_value(digits.take(n)) <= digits_value(digits),
    decreases digits.len() - n,
{
    if n < digits.len() {
        lemma_digits_grow(digits, n + 1);
        assert(digits.take(n + 1).drop_last() =~= digits.take(n));
    } else {
        assert(digits.take(n) =~= digits);
    }
}

fn is_index(text: &str) -> (r: bool)
    ensures
        r == reads_index(text@),
{
    let n: usize = text.unicode_len();
    let start: usize = if n > 0 && text.get_char(0) == '+' {
        1
    } else {
        0
    };
    if start == n {
        return false;
    }
    let ghost digits = without_plus(text@);
    assert(digits =~= text@.skip(start as int));
    let mut value: usize = 0;
    let mut i: usize = start;
    while i < n
        invariant
            start <= i <= n,
            n == text@.len(),
            digits == without_plus(text@),
            digits == text@.skip(start as int),
            forall|j: int| 0 <= j < i - start ==> is_digit(#[trigger] digits[j]),
            value == digits_value(digits.take(i - start)),
        decreases n - i,
    {
        let c = text.get_char(i);
        assert(c == digits[i - start]);
        if c < '0' || c > '9' {
            return false;
        }
        let d: usize = (c as u32 - '0' as u32) as usize;
        proof {
            let k: int = i - start;
            assert(digits.take(k + 1).drop_last() =~= digits.take(k));
            assert(digits.take(k + 1).last() == c);
            lemma_digits_grow(digits, k + 1);
        }
        if value > (usize::MAX - d) / 10 {
            return false;
        }
        value = value * 10 + d;
        i = i + 1;
    }
    assert(digits.take(n - start) =~= digits);
    true
}

/// Whether a name falls into a lead, an index without an underscore, and a property.
spec fn splits(key: Seq<char>, lead: Seq<char>, index: Seq<char>, property: Seq<char>) -> bool {
    key == named(lead, index, property) && !index.contains('_')
}

/// A name falls apart in one way at most.
proof fn lemma_splits_once(
    key: Seq<char>,
    lead: Seq<char>,
    index: Seq<char>,
    property: Seq<char>,
    end: int,
)
    requires
        splits(key, lead, index, property),
        lead.len() <= end <= key.len(),
        forall|i: int| lead.len() <= i < end ==> #[trigger] key[i] != '_',
        end < key.len() ==> key[end] == '_',
    ensures
        end < key.len(),
        key.take(lead.len() as int) == lead,
        index == key.subrange(lead.len() as int, end),
        property == key.subrange(end + 1, key.len() as int),
{
    reveal_strlit("_");
    let place = (lead.len() + index.len()) as int;
    assert(key[place] == '_');
    assert(end <= place);
    if end < place {
        assert(key[end] == index[end - lead.len()]);
        assert(index.contains('_'));
    }
    assert(key.take(lead.len() as int) =~= lead);
    assert(index =~= key.subrange(lead.len() as int, end));
    assert(property =~= key.subrange(end + 1, key.len() as int));
}

proof fn lemma_index_has_no_underscore(index: Seq<char>)
    requires
        reads_index(index),
    ensures
        !index.contains('_'),
{
    if index.contains('_') {
        let i = index.index_of('_');
        let digits = without_plus(index);
        if digits.len() < index.len() {
            assert(i > 0);
            assert(digits[i - 1] == index[i]);
        } else {
            assert(digits[i] == index[i]);
        }
    }
}

fn starts_with(text: &str, lead: &str) -> (r: bool)
    ensures
        r == (lead@.len() <= text@.len() && text@.take(lead@.len() as int) == lead@),
{
    let n: usize = lead.unicode_len();
    if n > text.unicode_len() {
        return false;
    }
    let mut i: usize = 0;
    while i < n
        invariant
            i <= n,
            n == lead@.len(),
            n <= text@.len(),
            forall|j: int| 0 <= j < i ==> #[trigger] lead@[j] == text@[j],
        decreases n - i,
    {
        if text.get_char(i) != lead.get_char(i) {
            assert(text@.take(n as int)[i as int] != lead@[i as int]);
            return false;
        }
        i = i + 1;
    }
    assert(text@.take(n as int) =~= lead@);
    true
}

/// The index and the property of a name, where it has both.
fn split_name<'a>(key: &'a str, lead: &str) -> (r: Option<(&'a str, &'a str)>)
    ensures
        match r {
            Some((index, property)) => splits(key@, lead@, index@, property@),
            None => true,
        },
        forall|index: Seq<char>, property: Seq<char>| #[trigger]
            splits(key@, lead@, index, property) ==> (r matches Some((i, p)) && i@ == index && p@
                == property),
{
    let n: usize = key.unicode_len();
    if !starts_with(key, lead) {
        proof {
            assert forall|index: Seq<char>, property: Seq<char>|
                !(#[trigger] splits(key@, lead@, index, property)) by {
                if splits(key@, lead@, index, property) {
                    assert(key@.take(lead@.len() as int) =~= lead@);
                }
            }
        }
        return None;
    }
    let from: usize = lead.unicode_len();
    let mut end: usize = from;
    while end < n && key.get_char(end) != '_'
        invariant
            from <= end <= n,
            n == key@.len(),
            forall|i: int| from <= i < end ==> #[trigger] key@[i] != '_',
        decreases n - end,
    {
        end = end + 1;
    }
    proof {
        assert forall|index: Seq<char>, property: Seq<char>| #[trigger]
            splits(key@, lead@, index, property) implies end < n && index == key@.subrange(
            from as int,
            end as int,
        ) && property == key@.subrange(end + 1, n as int) by {
            lemma_splits_once(key@, lead@, index, property, end as int);
        }
    }
    if end == n {
        return None;
    }
    let index = key.substring_char(from, end);
    let property = key.substring_char(end + 1, n);
    proof {
        reveal_strlit("_");
        assert(key@ =~= named(lead@, index@, property@));
        if index@.contains('_') {
            let i = index@.index_of('_');
            assert(key@[from + i] == '_');
        }
    }
    Some((index, property))
}

fn is_video_property(text: &str) -> (r: bool)
    ensures
        r == exists|p: VideoProperty| #[trigger] video_property_name(p) == text@,
{
    let name = text.to_owned();
    proof {
        assert(video_property_name(VideoProperty::X) == "x"@);
        assert(video_property_name(VideoProperty::Y) == "y"@);
        assert(video_property_name(VideoProperty::ScaleX) == "scale_x"@);
        assert(video_property_name(VideoProperty::ScaleY) == "scale_y"@);
        assert(video_property_name(VideoProperty::Rotation) == "rotation"@);
        assert(video_property_name(VideoProperty::Opacity) == "opacity"@);
    }
    name == "x".to_owned() || name == "y".to_owned() || name == "scale_x".to_owned() || name
        == "scale_y".to_owned() || name == "rotation".to_owned() || name == "opacity".to_owned()
}

fn is_audio_property(text: &str) -> (r: bool)
    ensures
        r == exists|p: AudioProperty| #[trigger] audio_property_name(p) == text@,
{
    let name = text.to_owned();
    proof {
        assert(audio_property_name(AudioProperty::Volume) == "volume"@);
        assert(audio_property_name(AudioProperty::Pan) == "pan"@);
    }
    name == "volume".to_owned() || name == "pan".to_owned()
}

/// Whether a name is that of a video track's animation.
pub fn is_video_key(key: &String) -> (r: bool)
    ensures
        r == is_video_name(key@),
{
    proof {
        assert forall|index: Seq<char>, p: VideoProperty|
            reads_index(index) && key@ == #[trigger] named(
                "video_"@,
                index,
                video_property_name(p),
            ) implies splits(key@, "video_"@, index, video_property_name(p)) by {
            lemma_index_has_no_underscore(index);
        }
    }
    match split_name(key.as_str(), "video_") {
        Some((index, property)) => {
            let r = is_index(index) && is_video_property(property);
            proof {
                if r {
                    let p = choose|p: VideoProperty| #[trigger]
                        video_property_name(p) == property@;
                    assert(key@ == named("video_"@, index@, video_property_name(p)));
                }
            }
            r
        },
        None => false,
    }
}

/// Whether a name is that of an audio track's animation.
pub fn is_audio_key(key: &String) -> (r: bool)
    ensures
        r == is_audio_name(key@),
{
    proof {
        assert forall|index: Seq<char>, p: AudioProperty|
            reads_index(index) && key@ == #[trigger] named(
                "audio_"@,
                index,
                audio_property_name(p),
            ) implies splits(key@, "audio_"@, index, audio_property_name(p)) by {
            lemma_index_has_no_underscore(index);
        }
    }
    match split_name(key.as_str(), "audio_") {
        Some((index, property)) => {
            let r = is_index(index) && is_audio_property(property);
            proof {
                if r {
                    let p = choose|p: AudioProperty| #[trigger]
                        audio_property_name(p) == property@;
                    assert(key@ == named("audio_"@, index@, audio_property_name(p)));
                }
            }
            r
        },
        None => false,
    }
}

/// The names in a list that are no video track's, in order.
pub open spec fn unknown_video(list: Seq<NamedAnimation>) -> Seq<String>
    decreases list.len(),
{
    if list.len() == 0 {
        Seq::empty()
    } else if is_video_name(list.last().key@) {
        unknown_video(list.drop_last())
    } else {
        unknown_video(list.drop_last()).push(list.last().key)
    }
}

/// The names in a list that are no audio track's, in order.
pub open spec fn unknown_audio(list: Seq<NamedAnimation>) -> Seq<String>
    decreases list.len(),
{
    if list.len() == 0 {
        Seq::empty()
    } else if is_audio_name(list.last().key@) {
        unknown_audio(list.drop_last())
    } else {
        unknown_audio(list.drop_last()).push(list.last().key)
    }
}

/// The names that no track will ever look up, those of the video list first.
pub fn unknown_names(video: &Vec<NamedAnimation>, audio: &Vec<NamedAnimation>) -> (r: Vec<String>)
    ensures
        r@ == unknown_video(video@) + unknown_audio(audio@),
{
    let mut names: Vec<String> = Vec::new();
    let mut i: usize = 0;
    while i < video.len()
        invariant
            i <= video@.len(),
            names@ == unknown_video(video@.take(i as int)),
        decreases video@.len() - i,
    {
        proof {
            assert(video@.take(i + 1).drop_last() =~= video@.take(i as int));
            assert(video@.take(i + 1).last() == video@[i as int]);
        }
        if !is_video_key(&video[i].key) {
            names.push(video[i].key.clone());
        }
        i = i + 1;
    }
    assert(video@.take(video@.len() as int) =~= video@);
    let mut k: usize = 0;
    while k < audio.len()
        invariant
            k <= audio@.len(),
            names@ =~= unknown_video(video@) + unknown_audio(audio@.take(k as int)),
        decreases audio@.len() - k,
    {
        proof {
            assert(audio@.take(k + 1).drop_last() =~= audio@.take(k as int));
            assert(audio@.take(k + 1).last() == audio@[k as int]);
        }
        if !is_audio_key(&audio[k].key) {
            names.push(audio[k].key.clone());
        }
        k = k + 1;
    }
    assert(audio@.take(audio@.len() as int) =~= audio@);
    names
}

/// An index in decimal is read back.
proof fn lemma_decimal_is_read(n: nat)
    ensures
        decimal(n).len() > 0,
        forall|i: int| 0 <= i < decimal(n).len() ==> is_digit(#[trigger] decimal(n)[i]),
        digits_value(decimal(n)) == n,
    decreases n,
{
    reveal_strlit("0123456789");
    if n < 10 {
        assert(decimal(n).drop_last() =~= Seq::<char>::empty());
        assert(digits_value(decimal(n).drop_last()) == 0);
        assert(decimal(n).last() as int == '0' as int + n);
    } else {
        lemma_decimal_is_read(n / 10);
        let rest = decimal(n / 10);
        assert(decimal(n).drop_last() =~= rest);
        assert(decimal(n).last() as int == '0' as int + n % 10);
        assert forall|i: int| 0 <= i < decimal(n).len() implies is_digit(
            #[trigger] decimal(n)[i],
        ) by {
            if i < rest.len() {
                assert(decimal(n)[i] == rest[i]);
            }
        }
    }
}

/// Every name under which a track's animation is looked up is one that is recognised.
pub proof fn looked_up_names_are_recognised(index: usize, v: VideoProperty, a: AudioProperty)
    ensures
        is_video_name(video_key(index as nat, v)),
        is_audio_name(audio_key(index as nat, a)),
{
    let digits = decimal(index as nat);
    lemma_decimal_is_read(index as nat);
    assert(is_digit(digits[0]));
    assert(without_plus(digits) == digits);
    assert(video_key(index as nat, v) == named("video_"@, digits, video_property_name(v)));
    assert(audio_key(index as nat, a) == named("audio_"@, digits, audio_property_name(a)));
}

/// An animation under a name that no track looks up is ignored: every lookup gives what it gave
/// without it.
pub proof fn unknown_names_are_ignored(
    list: Seq<NamedAnimation>,
    key: String,
    animation: AnimationTrack,
    index: usize,
    v: VideoProperty,
    a: AudioProperty,
)
    ensures
        !is_video_name(key@) ==> animation_at(
            registered(list, key, animation),
            video_key(index as nat, v),
        ) == animation_at(list, video_key(index as nat, v)),
        !is_audio_name(key@) ==> animation_at(
            registered(list, key, animation),
            audio_key(index as nat, a),
        ) == animation_at(list, audio_key(index as nat, a)),
{
    looked_up_names_are_recognised(index, v, a);
    registered_is_found(list, key, animation, video_key(index as nat, v));
    registered_is_found(list, key, animation, audio_key(index as nat, a));
}

/// The place is the first match.
proof fn lemma_key_place_bounds(list: Seq<NamedAnimation>, key: Seq<char>)
    ensures
        0 <= key_place(list, key) <= list.len(),
        forall|j: int| 0 <= j < key_place(list, key) ==> (#[trigger] list[j]).key@ != key,
        key_place(list, key) < list.len() ==> list[key_place(list, key)].key@ == key,
    decreases list.len(),
{
    if list.len() > 0 && list[0].key@ != key {
        let rest = list.skip(1);
        lemma_key_place_bounds(rest, key);
        assert forall|j: int| 0 <= j < key_place(list, key) implies (#[trigger] list[j]).key@
            != key by {
            if j > 0 {
                assert(list[j] == rest[j - 1]);
            }
        }
    }
}

} // verus!
