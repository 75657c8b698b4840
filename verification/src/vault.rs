//! The unlocked vault's in-memory state: the session key derived from
//! the master passphrase and the sorted list of stored credentials.
use vstd::prelude::*;
use vstd::string::StringSliceAdditionalSpecFns;

use crate::aes;
use crate::algo;
use crate::sha;
use crate::store;

verus! {

/// One stored credential: its display name, the account it belongs to,
/// and the secret, encrypted under the session key.
pub struct Password {
    pub name: String,
    pub account: String,
    pub cyphertext: Vec<u8>,
}

impl Clone for Password {
    /// A copy that carries the same name, account and ciphertext.
    fn clone(&self) -> (r: Self)
        ensures
            pw_view(r) == pw_view(*self),
    {
        let cyphertext = self.cyphertext.clone();
        proof {
            assert(cyphertext@ =~= self.cyphertext@);
        }
        Password { name: self.name.clone(), account: self.account.clone(), cyphertext }
    }
}

/// What a credential says: its name, account and ciphertext.
pub open spec fn pw_view(p: Password) -> (Seq<char>, Seq<char>, Seq<u8>) {
    (p.name@, p.account@, p.cyphertext@)
}

/// The whole list, credential by credential.
pub open spec fn views_of(s: Seq<Password>) -> Seq<(Seq<char>, Seq<char>, Seq<u8>)> {
    s.map_values(|p: Password| pw_view(p))
}

/// Decode one stored record as the storage layer yields it: name and
/// account as text in the first two columns, the ciphertext as a blob
/// in the third.
pub fn password_from_row(row: &store::Row) -> (r: Option<Password>)
    ensures
        match r {
            Some(p) => {
                &&& store::column_text_view(row.columns@[0]) == Some(p.name@)
                &&& store::column_text_view(row.columns@[1]) == Some(p.account@)
                &&& store::column_blob_view(row.columns@[2]) == Some(p.cyphertext@)
            },
            None => row.columns@.len() < 3 || store::column_text_view(row.columns@[0]) is None
                || store::column_text_view(row.columns@[1]) is None || store::column_blob_view(
                row.columns@[2],
            ) is None,
        },
{
    let name = match row.column_text(0) {
        Some(s) => s.to_owned(),
        None => {
            return None;
        },
    };
    let account = match row.column_text(1) {
        Some(s) => s.to_owned(),
        None => {
            return None;
        },
    };
    let cyphertext = match row.column_blob(2) {
        Some(b) => b.clone(),
        None => {
            return None;
        },
    };
    proof {
        assert(cyphertext@ =~= store::column_blob_view(row.columns@[2]).unwrap());
    }
    Some(Password { name, account, cyphertext })
}

/// The unlocked session: the 32-byte key is the digest of the master
/// passphrase, and the credential list stays sorted by name.
pub struct State {
    pub passwords: Vec<Password>,
    pub master: [u8; 32],
}

/// What a session's state always satisfies.
pub open spec fn state_inv(s: State) -> bool {
    algo::sorted_names(s.passwords@)
}

impl State {
    /// Open a session: derive the key from the passphrase and sort the
    /// stored credentials.
    pub fn new(master: &str, stored: Vec<Password>) -> (s: State)
        requires
            master.spec_bytes().len() + 72 <= usize::MAX,
        ensures
            s.master@ == sha::spec_sha256(master.spec_bytes()),
            views_of(s.passwords@).to_multiset() == views_of(stored@).to_multiset(),
            state_inv(s),
    {
        let master = sha::hash(master.as_bytes());
        let mut passwords = stored;
        algo::sort(&mut passwords);
        State { passwords, master }
    }

    /// Add a credential. The name must be 1 to 30 bytes, the account
    /// and the secret 1 to 40 bytes, and the name must be new; then the
    /// secret is encrypted under the session key, the record is filed
    /// in name order, and a copy is handed back for persistence.
    /// Otherwise nothing changes and nothing is returned.
    pub fn add_password(&mut self, name: &str, account: &str, plaintext: &str) -> (r: Option<
        Password,
    >)
        requires
            state_inv(*old(self)),
        ensures
            state_inv(*final(self)),
            final(self).master == old(self).master,
            match r {
                Some(rec) => {
                    &&& rec.name@ == name@
                    &&& rec.account@ == account@
                    &&& rec.cyphertext@ == aes::spec_encrypt(
                        plaintext.spec_bytes(),
                        old(self).master@,
                    )
                    &&& views_of(final(self).passwords@).to_multiset() == views_of(
                        old(self).passwords@,
                    ).to_multiset().insert(pw_view(rec))
                    &&& 1 <= name.spec_bytes().len() <= 30
                    &&& 1 <= account.spec_bytes().len() <= 40
                    &&& 1 <= plaintext.spec_bytes().len() <= 40
                    &&& !algo::name_listed(old(self).passwords@, name@)
                },
                None => {
                    &&& *final(self) == *old(self)
                    &&& (name.spec_bytes().len() == 0 || account.spec_bytes().len() == 0
                        || plaintext.spec_bytes().len() == 0 || name.spec_bytes().len() > 30
                        || account.spec_bytes().len() > 40 || plaintext.spec_bytes().len() > 40
                        || algo::name_listed(old(self).passwords@, name@))
                },
            },
    {
        let name_b = name.as_bytes();
        let account_b = account.as_bytes();
        let plaintext_b = plaintext.as_bytes();
        if name_b.len() == 0 || account_b.len() == 0 || plaintext_b.len() == 0 || name_b.len() > 30
            || account_b.len() > 40 || plaintext_b.len() > 40 {
            return None;
        }
        if algo::contains(name, self.passwords.as_slice()) {
            return None;
        }
        let cyphertext = aes::encrypt(plaintext_b, &self.master);
        let rec = Password { name: name.to_owned(), account: account.to_owned(), cyphertext };
        let ghost p0 = self.passwords@;
        self.passwords.push(rec.clone());
        proof {
            broadcast use vstd::seq_lib::group_to_multiset_ensures;

            assert(views_of(self.passwords@) =~= views_of(p0).push(pw_view(rec)));
            assert(views_of(p0).push(pw_view(rec)).to_multiset() =~= views_of(
                p0,
            ).to_multiset().insert(pw_view(rec)));
        }
        algo::sort(&mut self.passwords);
        Some(rec)
    }

    /// Drop the credential at `index`, which carries `name`.
    pub fn remove_password(&mut self, index: usize, name: &str)
        requires
            state_inv(*old(self)),
            index < old(self).passwords@.len(),
            old(self).passwords@[index as int].name@ == name@,
        ensures
            state_inv(*final(self)),
            final(self).master == old(self).master,
            final(self).passwords@ == old(self).passwords@.remove(index as int),
    {
        self.passwords.remove(index);
        proof {
            assert forall|i: int, j: int|
                0 <= i < j < final(self).passwords@.len() implies !algo::lex_gt(
                #[trigger] final(self).passwords@[i].name@,
                #[trigger] final(self).passwords@[j].name@,
            ) by {
                let s = old(self).passwords@;
                let t = final(self).passwords@;
                assert(t == s.remove(index as int));
                if i < index {
                    if j < index {
                        assert(!algo::lex_gt(s[i].name@, s[j].name@));
                    } else {
                        assert(t[j] == s[j + 1]);
                        assert(!algo::lex_gt(s[i].name@, s[j + 1].name@));
                    }
                } else {
                    assert(t[i] == s[i + 1] && t[j] == s[j + 1]);
                    assert(!algo::lex_gt(s[i + 1].name@, s[j + 1].name@));
                }
            }
        }
    }

    /// Recover the plaintext of a stored credential under the session
    /// key.
    pub fn reveal_password(&self, index: usize) -> (p: Vec<u8>)
        requires
            index < self.passwords@.len(),
        ensures
            p@ == aes::spec_decrypt(self.passwords@[index as int].cyphertext@, self.master@),
    {
        aes::decrypt(self.passwords[index].cyphertext.as_slice(), &self.master)
    }
}

} // verus!
