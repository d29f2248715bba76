//! The task store's computing half: turning file content into tasks and
//! tasks into file content. Reading and writing the file itself is the
//! caller's affair.

use vstd::prelude::*;
use crate::chars::string_to_chars;
use crate::codec::{parse_tasks, sp_tasks};
use crate::task::{Task, views_of};

verus! {

/// Why a load failed. The file's content did not parse as a stored task
/// list; the store treats that as fatal rather than discarding the file.
#[derive(Debug)]
pub enum StoreError {
    Corrupt,
}

/// Turn the storage file's content into the task list. An absent file is an
/// empty list; content that does not scan as a stored task list is corrupt.
pub fn load_todos(content: Option<&str>) -> (r: Result<Vec<Task>, StoreError>)
    ensures
        content is None ==> (r matches Ok(ts) && ts@.len() == 0),
        content matches Some(s) ==> match sp_tasks(s@) {
            Some(tvs) => r matches Ok(ts) && views_of(ts@) == tvs,
            None => r matches Err(e) && e matches StoreError::Corrupt,
        },
{
    match content {
        None => Ok(Vec::new()),
        Some(s) => {
            let cs = string_to_chars(s);
            match parse_tasks(&cs) {
                Some(ts) => Ok(ts),
                None => Err(StoreError::Corrupt),
            }
        },
    }
}

} // verus!
