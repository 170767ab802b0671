//! The logic of the Gunny launcher: finding the Flash movie in a game page,
//! reading attributes and character references, picking a release download,
//! joining archive entries safely, locating the player and planning its
//! command line, and telling game links from web pages.

pub mod archive;
pub mod attr;
pub mod availability;
pub mod binary;
pub mod entities;
pub mod launch;
pub mod nav;
pub mod number;
pub mod paths;
pub mod release;
pub mod swf;
pub mod text;
