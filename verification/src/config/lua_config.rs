//! What the configuration settles: which script answers which route, and
//! where scripts look for libraries.

use crate::string_map::{assoc_insert, assoc_remove, Pair, StringMap};
use crate::text::texts;
use vstd::prelude::*;
use vstd::string::*;

verus! {

/// The configuration as mathematical values.
pub struct ConfigView {
    pub config_directory: Seq<char>,
    pub endpoints: Seq<Pair>,
    pub library_folders: Seq<Seq<char>>,
}

/// The folders written one after the other, each followed by `;`.
pub open spec fn folder_list(folders: Seq<Seq<char>>) -> Seq<char>
    decreases folders.len(),
{
    if folders.len() == 0 {
        Seq::empty()
    } else {
        folder_list(folders.drop_last()) + folders.last() + seq![';']
    }
}

/// The search path for libraries: every folder followed by `;`, then the
/// path that was there before.
pub open spec fn search_path(folders: Seq<Seq<char>>, package_path: Seq<char>) -> Seq<char> {
    folder_list(folders) + package_path
}

/// Which script answers which route, and where scripts look for libraries.
#[derive(Debug)]
pub struct ConfigMgr {
    config_directory: String,
    endpoints: StringMap,
    library_folders: Vec<String>,
}

impl View for ConfigMgr {
    type V = ConfigView;

    closed spec fn view(&self) -> ConfigView {
        ConfigView {
            config_directory: self.config_directory@,
            endpoints: self.endpoints.entries(),
            library_folders: texts(self.library_folders@),
        }
    }
}

impl ConfigMgr {
    /// A configuration without endpoints and folders.
    pub fn new(config_dr: &str) -> (r: ConfigMgr)
        ensures
            r@ == (ConfigView {
                config_directory: config_dr@,
                endpoints: Seq::empty(),
                library_folders: Seq::empty(),
            }),
    {
        let r = ConfigMgr {
            config_directory: config_dr.to_owned(),
            endpoints: StringMap::new(),
            library_folders: Vec::new(),
        };
        assert(texts(r.library_folders@) =~= Seq::<Seq<char>>::empty());
        r
    }

    /// Adds a folder in which scripts look for libraries.
    pub fn add_library_folder(&mut self, folder: &str)
        ensures
            final(self)@ == (ConfigView {
                library_folders: old(self)@.library_folders.push(folder@),
                ..old(self)@
            }),
    {
        self.library_folders.push(folder.to_owned());
        assert(texts(self.library_folders@) =~= texts(old(self).library_folders@).push(folder@));
    }

    /// Lets `script` answer the route `endpoint`.
    pub fn set_endpoint(&mut self, endpoint: &str, script: &str)
        ensures
            final(self)@ == (ConfigView {
                endpoints: assoc_insert(old(self)@.endpoints, endpoint@, script@),
                ..old(self)@
            }),
    {
        self.endpoints.insert(endpoint.to_owned(), script.to_owned());
    }

    /// Leaves the route `endpoint` without a script.
    pub fn remove_endpoint(&mut self, endpoint: &str)
        ensures
            final(self)@ == (ConfigView {
                endpoints: assoc_remove(old(self)@.endpoints, endpoint@),
                ..old(self)@
            }),
    {
        self.endpoints.remove(endpoint);
    }

    /// The folders in which scripts look for libraries.
    pub fn get_library_folders(&self) -> (folders: &Vec<String>)
        ensures
            texts(folders@) == self@.library_folders,
    {
        &self.library_folders
    }

    /// The script of every route.
    pub fn get_endpoints(&self) -> (endpoints: &StringMap)
        ensures
            endpoints.entries() == self@.endpoints,
    {
        &self.endpoints
    }

    /// The directory of the configuration.
    pub fn config_directory(&self) -> (directory: &String)
        ensures
            directory@ == self@.config_directory,
    {
        &self.config_directory
    }

    /// Takes over the endpoints and folders that a configuration script
    /// left behind.
    pub fn replace(&mut self, endpoints: StringMap, library_folders: Vec<String>)
        ensures
            final(self)@ == (ConfigView {
                endpoints: endpoints.entries(),
                library_folders: texts(library_folders@),
                ..old(self)@
            }),
    {
        self.endpoints = endpoints;
        self.library_folders = library_folders;
    }

    /// The search path that scripts get: every library folder followed by
    /// `;`, then the path that was there before.
    pub fn library_path(&self, package_path: &str) -> (path: String)
        ensures
            path@ == search_path(self@.library_folders, package_path@),
    {
        let mut full_path = String::new();
        let mut i: usize = 0;
        let ghost folders = texts(self.library_folders@);
        assert(folders.take(0) =~= Seq::<Seq<char>>::empty());
        while i < self.library_folders.len()
            invariant
                i <= self.library_folders.len(),
                folders == texts(self.library_folders@),
                full_path@ == folder_list(folders.take(i as int)),
            decreases self.library_folders.len() - i,
        {
            proof {
                reveal_strlit(";");
                let done = folders.take(i as int + 1);
                assert(done.drop_last() =~= folders.take(i as int));
                assert(done.last() == self.library_folders@[i as int]@);
            }
            let ghost before = full_path@;
            full_path.append(self.library_folders[i].as_str());
            full_path.append(";");
            assert(full_path@ =~= before + self.library_folders@[i as int]@ + seq![';']);
            i = i + 1;
        }
        full_path.append(package_path);
        assert(folders.take(folders.len() as int) =~= folders);
        full_path
    }
}

} // verus!
