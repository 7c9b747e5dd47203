use vstd::prelude::*;
use crate::str_map::StrMap;

verus! {

/// Private keys already read, by the path they were read from.
pub struct SshCacheCerts {
    pub data: StrMap<String>,
}

impl SshCacheCerts {
    /// The cached keys by path.
    pub open spec fn cached(&self) -> Map<Seq<char>, Seq<char>> {
        self.data@.map_values(|s: String| s@)
    }

    pub open spec fn wf(&self) -> bool {
        self.data.wf()
    }

    pub fn new() -> (r: Self)
        ensures
            r.wf(),
            r.cached() == Map::<Seq<char>, Seq<char>>::empty(),
    {
        let r = SshCacheCerts { data: StrMap::new() };
        assert(r.cached() =~= Map::<Seq<char>, Seq<char>>::empty());
        r
    }

    /// The key read before from `cert_path`, if any.
    pub fn get_cert(&self, cert_path: &str) -> (r: Option<String>)
        requires
            self.wf(),
        ensures
            match r {
                Some(cert) => self.cached().contains_key(cert_path@) && cert@ == self.cached()[cert_path@],
                None => !self.cached().contains_key(cert_path@),
            },
    {
        match self.data.get(cert_path) {
            Some(cert) => Some(cert.clone()),
            None => None,
        }
    }

    /// Remembers the key read from `cert_path`.
    pub fn insert_cert(&mut self, cert_path: &str, cert: String)
        requires
            old(self).wf(),
        ensures
            final(self).wf(),
            final(self).cached() == old(self).cached().insert(cert_path@, cert@),
    {
        let ghost before = self.cached();
        let ghost c = cert@;
        self.data.insert(cert_path.to_owned(), cert);
        assert(self.cached() =~= before.insert(cert_path@, c));
    }
}

/// A key remembered for a path is what a later lookup of that path gives
/// back; the keys remembered for other paths stay as they were.
pub proof fn lemma_lookup_after_insert(
    cached: Map<Seq<char>, Seq<char>>,
    cert_path: Seq<char>,
    cert: Seq<char>,
    other: Seq<char>,
)
    ensures
        cached.insert(cert_path, cert).contains_key(cert_path),
        cached.insert(cert_path, cert)[cert_path] == cert,
        other != cert_path ==> cached.insert(cert_path, cert).contains_key(other) == cached.contains_key(other),
        other != cert_path && cached.contains_key(other) ==> cached.insert(cert_path, cert)[other] == cached[other],
{
}

} // verus!
