use vstd::prelude::*;

use crate::codec::lookup_field;

verus! {

/// The public request parameters a gateway call carries, as a
/// string-keyed map with at most one value per key. The signing and the
/// transport live with the caller; this type owns the parameter map and
/// the rules for filling it.
pub struct AlipayConfig {
    pub public_params: Vec<(String, String)>,
}

/// The field map with every pair under `key` taken out, order kept.
pub open spec fn fields_without(
    fields: Seq<(Seq<char>, Seq<char>)>,
    key: Seq<char>,
) -> Seq<(Seq<char>, Seq<char>)>
    decreases fields.len(),
{
    if fields.len() == 0 {
        Seq::empty()
    } else if fields[0].0 == key {
        fields_without(fields.drop_first(), key)
    } else {
        Seq::empty().push(fields[0]) + fields_without(fields.drop_first(), key)
    }
}

/// Removing one key leaves every other key's first value where it was.
proof fn lemma_lookup_without_other(
    fields: Seq<(Seq<char>, Seq<char>)>,
    key: Seq<char>,
    k: Seq<char>,
)
    requires
        k != key,
    ensures
        lookup_field(fields_without(fields, key), k) == lookup_field(fields, k),
    decreases fields.len(),
{
    if fields.len() > 0 {
        lemma_lookup_without_other(fields.drop_first(), key, k);
        if fields[0].0 != key {
            let rest = fields_without(fields.drop_first(), key);
            let whole = Seq::empty().push(fields[0]) + rest;
            assert(whole[0] == fields[0]);
            assert(whole.drop_first() =~= rest);
        }
    }
}

/// After removal, the removed key is not found at all.
proof fn lemma_lookup_without_absent(fields: Seq<(Seq<char>, Seq<char>)>, key: Seq<char>)
    ensures
        lookup_field(fields_without(fields, key), key) is None,
    decreases fields.len(),
{
    if fields.len() > 0 {
        lemma_lookup_without_absent(fields.drop_first(), key);
        if fields[0].0 != key {
            let rest = fields_without(fields.drop_first(), key);
            let whole = Seq::empty().push(fields[0]) + rest;
            assert(whole[0] == fields[0]);
            assert(whole.drop_first() =~= rest);
        }
    }
}

impl AlipayConfig {
    /// An empty parameter map; the caller fills in the gateway
    /// constants and the per-request values through the setters.
    pub fn empty() -> (r: AlipayConfig)
        ensures
            r.public_params@.len() == 0,
    {
        AlipayConfig { public_params: Vec::new() }
    }

    /// Writes one parameter: afterwards `key` maps to exactly this
    /// value, and no other key's value has moved.
    #[verifier::loop_isolation(false)]
    pub fn set_param(&mut self, key: &str, value: String)
        ensures
            lookup_field(final(self).public_params.deep_view(), key@) == Some(value@),
            forall|k: Seq<char>|
                k != key@ ==> #[trigger] lookup_field(final(self).public_params.deep_view(), k)
                    == lookup_field(old(self).public_params.deep_view(), k),
    {
        let ghost fv = self.public_params.deep_view();
        let key_string: String = key.to_owned();
        let mut out: Vec<(String, String)> = Vec::new();
        proof {
            assert(fv.skip(0) =~= fv);
            assert(out.deep_view() =~= Seq::<(Seq<char>, Seq<char>)>::empty());
        }
        let mut i: usize = 0;
        while i < self.public_params.len()
            invariant
                0 <= i <= self.public_params@.len(),
                fields_without(fv, key@) =~= out.deep_view() + fields_without(
                    fv.skip(i as int),
                    key@,
                ),
            decreases self.public_params@.len() - i,
        {
            proof {
                assert(fv.skip(i as int).drop_first() =~= fv.skip(i + 1));
                assert(fv.skip(i as int)[0] == fv[i as int]);
            }
            if !self.public_params[i].0.eq(&key_string) {
                let p0 = self.public_params[i].0.clone();
                let p1 = self.public_params[i].1.clone();
                assert((p0, p1) == self.public_params@[i as int]);
                out.push((p0, p1));
                proof {
                    assert(fields_without(fv, key@) =~= out.deep_view() + fields_without(
                        fv.skip(i + 1),
                        key@,
                    ));
                }
            }
            i = i + 1;
        }
        proof {
            assert(fv.skip(i as int) =~= Seq::<(Seq<char>, Seq<char>)>::empty());
            assert(fields_without(fv, key@) =~= out.deep_view());
        }
        let ghost removed = out.deep_view();
        out.push((key_string, value));
        self.public_params = out;
        proof {
            let fin = self.public_params.deep_view();
            assert(fin =~= removed.push((key@, value@)));
            lemma_lookup_without_absent(fv, key@);
            crate::codec::lemma_lookup_none_all(removed, key@);
            assert(fin[removed.len() as int] == (key@, value@));
            crate::codec::lemma_lookup_field_at(fin, key@, removed.len() as int);
            assert forall|k: Seq<char>| k != key@ implies #[trigger] lookup_field(fin, k)
                == lookup_field(fv, k) by {
                lemma_lookup_without_other(fv, key@, k);
                crate::codec::lemma_lookup_push_other(removed, (key@, value@), k);
            }
        }
    }

    /// Sets the interface version parameter.
    pub fn version(&mut self, version: &str) -> (ret: &mut AlipayConfig)
        ensures
            lookup_field(ret.public_params.deep_view(), "version"@) == Some(version@),
            forall|k: Seq<char>|
                k != "version"@ ==> #[trigger] lookup_field(ret.public_params.deep_view(), k)
                    == lookup_field(old(self).public_params.deep_view(), k),
            *final(self) == *final(ret),
    {
        let v: String = version.to_owned();
        self.set_param("version", v);
        self
    }

    /// Sets the interface name parameter.
    pub fn method(&mut self, method: &str) -> (ret: &mut AlipayConfig)
        ensures
            lookup_field(ret.public_params.deep_view(), "method"@) == Some(method@),
            forall|k: Seq<char>|
                k != "method"@ ==> #[trigger] lookup_field(ret.public_params.deep_view(), k)
                    == lookup_field(old(self).public_params.deep_view(), k),
            *final(self) == *final(ret),
    {
        let v: String = method.to_owned();
        self.set_param("method", v);
        self
    }

    /// Sets the request format parameter.
    pub fn format(&mut self, format: &str) -> (ret: &mut AlipayConfig)
        ensures
            lookup_field(ret.public_params.deep_view(), "format"@) == Some(format@),
            forall|k: Seq<char>|
                k != "format"@ ==> #[trigger] lookup_field(ret.public_params.deep_view(), k)
                    == lookup_field(old(self).public_params.deep_view(), k),
            *final(self) == *final(ret),
    {
        let v: String = format.to_owned();
        self.set_param("format", v);
        self
    }

    /// Sets the character-set parameter.
    pub fn charset(&mut self, charset: &str) -> (ret: &mut AlipayConfig)
        ensures
            lookup_field(ret.public_params.deep_view(), "charset"@) == Some(charset@),
            forall|k: Seq<char>|
                k != "charset"@ ==> #[trigger] lookup_field(ret.public_params.deep_view(), k)
                    == lookup_field(old(self).public_params.deep_view(), k),
            *final(self) == *final(ret),
    {
        let v: String = charset.to_owned();
        self.set_param("charset", v);
        self
    }

    /// Sets the address the gateway notifies asynchronously.
    pub fn notify_url(&mut self, notify_url: &str) -> (ret: &mut AlipayConfig)
        ensures
            lookup_field(ret.public_params.deep_view(), "notify_url"@) == Some(notify_url@),
            forall|k: Seq<char>|
                k != "notify_url"@ ==> #[trigger] lookup_field(
                    ret.public_params.deep_view(),
                    k,
                ) == lookup_field(old(self).public_params.deep_view(), k),
            *final(self) == *final(ret),
    {
        let v: String = notify_url.to_owned();
        self.set_param("notify_url", v);
        self
    }

    /// Sets the address the payer returns to.
    pub fn return_url(&mut self, return_url: &str) -> (ret: &mut AlipayConfig)
        ensures
            lookup_field(ret.public_params.deep_view(), "return_url"@) == Some(return_url@),
            forall|k: Seq<char>|
                k != "return_url"@ ==> #[trigger] lookup_field(
                    ret.public_params.deep_view(),
                    k,
                ) == lookup_field(old(self).public_params.deep_view(), k),
            *final(self) == *final(ret),
    {
        let v: String = return_url.to_owned();
        self.set_param("return_url", v);
        self
    }
}

} // verus!
