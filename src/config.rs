//! Where the key ring lives: resolved from values that the caller reads
//! from the environment.
use crate::error::Error;
use vstd::prelude::*;

verus! {

/// The home directory: `STRONGBOX_HOME` when set, else the user's home
/// directory, else a configuration error.
pub fn get_user_home(strongbox_home: Option<String>, os_home: Option<String>) -> (r: Result<
    String,
    Error,
>)
    ensures
        match strongbox_home {
            Some(h) => r matches Ok(p) && p@ == h@,
            None => match os_home {
                Some(h) => r matches Ok(p) && p@ == h@,
                None => r == Err::<String, Error>(Error::Config),
            },
        },
{
    match strongbox_home {
        Some(h) => Ok(h),
        None => match os_home {
            Some(h) => Ok(h),
            None => Err(Error::Config),
        },
    }
}

/// The key ring file inside directory `home`, joined as a path: no
/// separator is added to an empty home or to one that already ends in `/`.
pub open spec fn key_ring_file_in(home: Seq<char>) -> Seq<char> {
    if home.len() == 0 {
        ".strongbox_keyring"@
    } else if home.last() == '/' {
        home + ".strongbox_keyring"@
    } else {
        home + "/.strongbox_keyring"@
    }
}

/// Joins the key ring file name onto directory `home`.
pub fn join_key_ring_file(home: String) -> (r: String)
    ensures
        r@ == key_ring_file_in(home@),
{
    let n = home.as_str().unicode_len();
    if n == 0 {
        String::from_str(".strongbox_keyring")
    } else if home.as_str().get_char(n - 1) == '/' {
        home.concat(".strongbox_keyring")
    } else {
        home.concat("/.strongbox_keyring")
    }
}

/// The key ring path: the one given, else the key ring file joined onto the
/// home directory that `get_user_home` resolves.
pub fn get_key_ring_path(
    keyring: Option<String>,
    strongbox_home: Option<String>,
    os_home: Option<String>,
) -> (r: Result<String, Error>)
    ensures
        match keyring {
            Some(p) => r matches Ok(q) && q@ == p@,
            None => match (strongbox_home, os_home) {
                (None, None) => r == Err::<String, Error>(Error::Config),
                (Some(h), _) => r matches Ok(q) && q@ == key_ring_file_in(h@),
                (None, Some(h)) => r matches Ok(q) && q@ == key_ring_file_in(h@),
            },
        },
{
    match keyring {
        Some(p) => Ok(p),
        None => {
            let home = get_user_home(strongbox_home, os_home)?;
            Ok(join_key_ring_file(home))
        },
    }
}

} // verus!
