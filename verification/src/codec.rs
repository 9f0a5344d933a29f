use vstd::prelude::*;

verus! {

/// A decoded mail-dispatch job. The queue's entries carry exactly three
/// required fields: the recipient, the subject, and the link that the
/// rendered message points at. An entry from which these cannot all be
/// read is permanently malformed.
pub struct MailJob {
    pub to: String,
    pub subject: String,
    pub link: String,
}

/// Mathematical image of a [`MailJob`].
pub struct MailJobV {
    pub to: Seq<char>,
    pub subject: Seq<char>,
    pub link: Seq<char>,
}

impl View for MailJob {
    type V = MailJobV;

    open spec fn view(&self) -> MailJobV {
        MailJobV { to: self.to@, subject: self.subject@, link: self.link@ }
    }
}

/// The value under the first occurrence of `key` in a field map, if any.
pub open spec fn lookup_field(fields: Seq<(Seq<char>, Seq<char>)>, key: Seq<char>) -> Option<
    Seq<char>,
>
    decreases fields.len(),
{
    if fields.len() == 0 {
        None
    } else if fields[0].0 == key {
        Some(fields[0].1)
    } else {
        lookup_field(fields.drop_first(), key)
    }
}

pub proof fn lemma_lookup_field_at(fields: Seq<(Seq<char>, Seq<char>)>, key: Seq<char>, i: int)
    requires
        0 <= i < fields.len(),
        forall|j: int| 0 <= j < i ==> (#[trigger] fields[j]).0 != key,
        fields[i].0 == key,
    ensures
        lookup_field(fields, key) == Some(fields[i].1),
    decreases fields.len(),
{
    if i > 0 {
        lemma_lookup_field_at(fields.drop_first(), key, i - 1);
    }
}

pub proof fn lemma_lookup_field_none(fields: Seq<(Seq<char>, Seq<char>)>, key: Seq<char>)
    requires
        forall|j: int| 0 <= j < fields.len() ==> (#[trigger] fields[j]).0 != key,
    ensures
        lookup_field(fields, key) is None,
    decreases fields.len(),
{
    if fields.len() > 0 {
        lemma_lookup_field_none(fields.drop_first(), key);
    }
}

/// A key that is not found occurs nowhere in the map.
pub proof fn lemma_lookup_none_all(fields: Seq<(Seq<char>, Seq<char>)>, key: Seq<char>)
    requires
        lookup_field(fields, key) is None,
    ensures
        forall|j: int| 0 <= j < fields.len() ==> (#[trigger] fields[j]).0 != key,
    decreases fields.len(),
{
    if fields.len() > 0 {
        lemma_lookup_none_all(fields.drop_first(), key);
        assert forall|j: int| 0 <= j < fields.len() implies (#[trigger] fields[j]).0 != key by {
            if j > 0 {
                assert(fields.drop_first()[j - 1] == fields[j]);
            }
        }
    }
}

/// Appending a pair under another key does not change what a key maps
/// to.
pub proof fn lemma_lookup_push_other(
    fields: Seq<(Seq<char>, Seq<char>)>,
    x: (Seq<char>, Seq<char>),
    k: Seq<char>,
)
    requires
        x.0 != k,
    ensures
        lookup_field(fields.push(x), k) == lookup_field(fields, k),
    decreases fields.len(),
{
    if fields.len() == 0 {
        assert(fields.push(x)[0] == x);
        assert(fields.push(x).drop_first() =~= Seq::<(Seq<char>, Seq<char>)>::empty());
        assert(lookup_field(Seq::<(Seq<char>, Seq<char>)>::empty(), k) is None);
    } else {
        lemma_lookup_push_other(fields.drop_first(), x, k);
        assert(fields.push(x)[0] == fields[0]);
        assert(fields.push(x).drop_first() =~= fields.drop_first().push(x));
    }
}

/// What decoding a mail entry yields: the three required fields, read
/// from the map, or nothing as soon as any of them is missing.
pub open spec fn spec_decode_mail(fields: Seq<(Seq<char>, Seq<char>)>) -> Option<MailJobV> {
    match (
        lookup_field(fields, "to"@),
        lookup_field(fields, "subject"@),
        lookup_field(fields, "link"@),
    ) {
        (Some(to), Some(subject), Some(link)) => Some(MailJobV { to, subject, link }),
        _ => None,
    }
}

/// An entry without a `subject` field (likewise `to` or `link`) decodes
/// to nothing, whatever else it carries: missing required fields are
/// exactly what makes an entry malformed.
pub proof fn lemma_decode_requires_fields(fields: Seq<(Seq<char>, Seq<char>)>)
    ensures
        lookup_field(fields, "to"@) is None ==> spec_decode_mail(fields) is None,
        lookup_field(fields, "subject"@) is None ==> spec_decode_mail(fields) is None,
        lookup_field(fields, "link"@) is None ==> spec_decode_mail(fields) is None,
{
}

/// Looks a key up in a field map, first occurrence first, as the log
/// store's field accessor does.
#[verifier::loop_isolation(false)]
pub fn get_field(fields: &Vec<(String, String)>, key: &String) -> (r: Option<String>)
    ensures
        match r {
            Some(v) => lookup_field(fields.deep_view(), key@) == Some(v@),
            None => lookup_field(fields.deep_view(), key@) is None,
        },
{
    let ghost fv = fields.deep_view();
    let mut i: usize = 0;
    while i < fields.len()
        invariant
            0 <= i <= fields.len(),
            forall|j: int| 0 <= j < i ==> (#[trigger] fv[j]).0 != key@,
        decreases fields.len() - i,
    {
        if fields[i].0.eq(key) {
            proof {
                lemma_lookup_field_at(fv, key@, i as int);
            }
            return Some(fields[i].1.clone());
        }
        i = i + 1;
    }
    proof {
        lemma_lookup_field_none(fv, key@);
    }
    None
}

/// Decodes the three required mail fields out of an entry's field map;
/// `None` marks the entry as permanently malformed.
pub fn decode_mail(fields: &Vec<(String, String)>) -> (r: Option<MailJob>)
    ensures
        match r {
            Some(j) => spec_decode_mail(fields.deep_view()) == Some(j@),
            None => spec_decode_mail(fields.deep_view()) is None,
        },
{
    let key_to: String = "to".to_owned();
    let key_subject: String = "subject".to_owned();
    let key_link: String = "link".to_owned();
    let to = match get_field(fields, &key_to) {
        Some(v) => v,
        None => {
            return None;
        },
    };
    let subject = match get_field(fields, &key_subject) {
        Some(v) => v,
        None => {
            return None;
        },
    };
    let link = match get_field(fields, &key_link) {
        Some(v) => v,
        None => {
            return None;
        },
    };
    Some(MailJob { to, subject, link })
}

/// Builds the field map a producer appends for one mail job. Decoding
/// reads back exactly what was enqueued.
pub fn encode_mail(to: String, subject: String, link: String) -> (r: Vec<(String, String)>)
    ensures
        spec_decode_mail(r.deep_view()) == Some(MailJobV { to: to@, subject: subject@, link: link@ }),
{
    let mut out: Vec<(String, String)> = Vec::new();
    let ghost tov = to@;
    let ghost subjectv = subject@;
    let ghost linkv = link@;
    out.push(("to".to_owned(), to));
    out.push(("subject".to_owned(), subject));
    out.push(("link".to_owned(), link));
    proof {
        reveal_strlit("to");
        reveal_strlit("subject");
        reveal_strlit("link");
        let fv = out.deep_view();
        assert(fv.len() == 3);
        assert(fv[0] == ("to"@, tov));
        assert(fv[1] == ("subject"@, subjectv));
        assert(fv[2] == ("link"@, linkv));
        assert("to"@.len() == 2 && "subject"@.len() == 7 && "link"@.len() == 4);
        assert("to"@ != "subject"@ && "to"@ != "link"@ && "subject"@ != "link"@);
        lemma_lookup_field_at(fv, "to"@, 0);
        lemma_lookup_field_at(fv, "subject"@, 1);
        lemma_lookup_field_at(fv, "link"@, 2);
    }
    out
}

} // verus!
