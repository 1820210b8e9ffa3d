//! The card's HTML page: the template with the card's data handed to its script.

use vstd::prelude::*;
use vstd::string::*;

use crate::text::{chars_of, push_char};

verus! {

/// The tag that closes the page's head.
pub open spec fn head_close() -> Seq<char> {
    seq!['<', '/', 'h', 'e', 'a', 'd', '>']
}

/// Whether `pattern` occurs in `text` from position `i` on.
pub open spec fn occurs_at(text: Seq<char>, pattern: Seq<char>, i: int) -> bool {
    0 <= i && i + pattern.len() <= text.len() && text.subrange(i, i + pattern.len()) == pattern
}

/// The template with a script that sets `window.profileData` to `payload` put in
/// front of the first `</head>`; none where the template has no `</head>`.
pub open spec fn injected_page(template: Seq<char>, payload: Seq<char>) -> Option<Seq<char>> {
    if exists|i: int| occurs_at(template, head_close(), i) {
        let i = choose|i: int|
            occurs_at(template, head_close(), i) && forall|j: int|
                0 <= j < i ==> !occurs_at(template, head_close(), j);
        Some(
            template.take(i) + "<script>window.profileData = "@ + payload + ";</script>\n</head>"@
                + template.skip(i + 7),
        )
    } else {
        None
    }
}

/// Appends the characters `chars[from..to]` to `text`.
fn push_chars(text: &mut String, chars: &Vec<char>, from: usize, to: usize)
    requires
        from <= to <= chars@.len(),
    ensures
        final(text)@ == old(text)@ + chars@.subrange(from as int, to as int),
{
    let ghost start = text@;
    let mut k: usize = from;
    while k < to
        invariant
            from <= k <= to <= chars@.len(),
            text@ == start + chars@.subrange(from as int, k as int),
        decreases to - k,
    {
        push_char(text, chars[k]);
        assert(chars@.subrange(from as int, k + 1) =~= chars@.subrange(from as int, k as int).push(
            chars@[k as int],
        ));
        k = k + 1;
    }
}

/// The page with the card's data: the template with
/// `<script>window.profileData = {payload};</script>` put in front of its first
/// `</head>`, or `None` where the template has no `</head>`.
pub fn inject_profile_data(template: &str, payload: &str) -> (page: Option<String>)
    ensures
        match page {
            Some(p) => injected_page(template@, payload@) == Some(p@),
            None => injected_page(template@, payload@) is None,
        },
{
    let chars = chars_of(template);
    let n = chars.len();
    let pattern: [char; 7] = ['<', '/', 'h', 'e', 'a', 'd', '>'];
    let mut i: usize = 0;
    while n >= 7 && i <= n - 7
        invariant
            n == chars@.len(),
            chars@ == template@,
            pattern@ == head_close(),
            forall|j: int| 0 <= j < i ==> !occurs_at(template@, head_close(), j),
        decreases n - i,
    {
        let mut k: usize = 0;
        while k < 7 && chars[i + k] == pattern[k]
            invariant
                k <= 7,
                i + 7 <= n,
                n == chars@.len(),
                pattern@ == head_close(),
                forall|m: int| 0 <= m < k ==> chars@[i + m] == pattern@[m],
            decreases 7 - k,
        {
            k = k + 1;
        }
        if k == 7 {
            proof {
                assert(chars@.subrange(i as int, i + 7) =~= head_close());
                assert(occurs_at(template@, head_close(), i as int));
                let c = choose|c: int|
                    occurs_at(template@, head_close(), c) && forall|j: int|
                        0 <= j < c ==> !occurs_at(template@, head_close(), j);
                assert(c == i as int) by {
                    if c > i {
                    }
                }
            }
            let mut page = String::new();
            push_chars(&mut page, &chars, 0, i);
            page.append("<script>window.profileData = ");
            page.append(payload);
            page.append(";</script>\n</head>");
            push_chars(&mut page, &chars, i + 7, n);
            assert(chars@.subrange(0, i as int) =~= template@.take(i as int));
            assert(chars@.subrange(i + 7, n as int) =~= template@.skip(i + 7));
            return Some(page);
        }
        proof {
            assert(chars@.subrange(i as int, i + 7)[k as int] != head_close()[k as int]);
        }
        i = i + 1;
    }
    proof {
        assert forall|j: int| !occurs_at(template@, head_close(), j) by {
            if 0 <= j && j + 7 <= n {
                assert(j < i);
            }
        }
    }
    None
}

} // verus!
