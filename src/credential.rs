use vstd::prelude::*;
use vstd::string::StringExecFns;

verus! {

/// A bearer credential as the authentication endpoint issues it. The server's
/// answer to a request is the only judge of whether it is still good.
pub struct Credential {
    pub access_token: String,
    pub token_type: String,
    /// Remaining lifetime in seconds, as announced; not acted upon.
    pub expires_in: i64,
}

impl Credential {
    /// The value of the `Authorization` header that carries this credential.
    pub fn authorization_value(&self) -> (r: String)
        ensures
            r@ == "Bearer "@ + self.access_token@,
    {
        let mut r = "Bearer ".to_owned();
        r.append(self.access_token.as_str());
        r
    }
}

/// The texts of a list of string pairs.
pub open spec fn pair_texts(v: Seq<(String, String)>) -> Seq<(Seq<char>, Seq<char>)> {
    Seq::new(v.len(), |i: int| (v[i].0@, v[i].1@))
}

/// The form fields of a client-credentials grant.
pub fn token_request_form(client_id: &String, client_secret: &String) -> (r: Vec<(String, String)>)
    ensures
        pair_texts(r@) == seq![
            ("grant_type"@, "client_credentials"@),
            ("client_id"@, client_id@),
            ("client_secret"@, client_secret@),
        ],
{
    let r = vec![
        ("grant_type".to_owned(), "client_credentials".to_owned()),
        ("client_id".to_owned(), client_id.clone()),
        ("client_secret".to_owned(), client_secret.clone()),
    ];
    assert(pair_texts(r@) =~= seq![
        ("grant_type"@, "client_credentials"@),
        ("client_id"@, client_id@),
        ("client_secret"@, client_secret@),
    ]);
    r
}

} // verus!
