//! The records that the renderer reads and writes.

use vstd::prelude::*;

use crate::json::Json;

verus! {

/// A node as the org-roam export lists it
#[derive(Debug)]
pub struct NodeFile {
    pub id: String,
    pub title: String,
    pub file: String,
    pub point: Option<Json>,
    pub level: Option<u64>,
    pub tags: Vec<String>,
    pub aliases: Vec<String>,
    pub links_to: Vec<String>,
    pub linked_from: Vec<String>,
    pub ast: Json,
}

/// One page within a PDF gallery
#[derive(Debug)]
pub struct PdfPage {
    pub url: String,
    pub width: u32,
    pub height: u32,
}

/// A gallery of PDF pages associated with a node
#[derive(Debug)]
pub struct PdfGallery {
    pub slug: String,
    pub page_count: u32,
    pub pages: Vec<PdfPage>,
}

/// An entry of the index of rendered nodes (index.json)
#[derive(Debug)]
pub struct IndexEntry {
    pub id: String,
    pub title: String,
    pub slug: String,
    pub aliases: Vec<String>,
    pub tags: Vec<String>,
    pub backlinks: Vec<String>,
    pub last_modified: String,
    pub preview: String,
    pub pdf_galleries: Option<Vec<PdfGallery>>,
}

} // verus!
