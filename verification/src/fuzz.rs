//! A sample of valid CSS touching every part of the grammar, and random edits of
//! it, for exercising the parser.
use vstd::prelude::*;
use vstd::string::StringExecFns;
use crate::text::{blen, bp, collect_chars, len_utf8, str_len, str_slice};

verus! {

/// All the sample style sheets, one after the other.
pub fn all_css() -> (r: String)
    ensures
        r@ == AT_RULES_CSS@ + ATTRIBUTE_SELECTORS_CSS@ + CLASS_SELECTORS_CSS@ + ID_SELECTORS_CSS@
            + NESTED_CSS_SELECTORS@ + TYPE_SELECTORS_CSS@ + UNIVERSAL_SELECTORS_CSS@,
{
    let mut r = AT_RULES_CSS.to_owned();
    r.append(ATTRIBUTE_SELECTORS_CSS);
    r.append(CLASS_SELECTORS_CSS);
    r.append(ID_SELECTORS_CSS);
    r.append(NESTED_CSS_SELECTORS);
    r.append(TYPE_SELECTORS_CSS);
    r.append(UNIVERSAL_SELECTORS_CSS);
    r
}

pub const AT_RULES_CSS: &'static str = r##"@charset "utf-8";
@color-profile --swop5c {
    src: url("https://example.org/SWOP2006_Coated5v2.icc");
}

@container (width > 400px) {
    h2 {
      font-size: 1.5em;
    }
}
/* with an optional <container-name> */
@container tall (height > 30rem) {
    h2 {
        line-height: 1.6;
    }
}
@container (width > 400px) and (height > 400px) {
    /* <stylesheet> */
}

@container (width > 400px) or (height > 400px) {
    /* <stylesheet> */
}

@container not (width < 400px) {
    /* <stylesheet> */
}
/* Apply styles if the container is narrower than 650px */
@container (width < 650px) {
  .card {
    width: 50%;
    background-color: gray;
    font-size: 1em;
  }
}


@counter-style thumbs {
    system: cyclic;
    symbols: "\1F44D";
    suffix: " ";
}
@counter-style circled-alpha {
    system: fixed;
    symbols: Ⓐ Ⓑ Ⓒ Ⓓ Ⓔ Ⓕ Ⓖ Ⓗ Ⓘ Ⓙ Ⓚ Ⓛ Ⓜ Ⓝ Ⓞ Ⓟ Ⓠ Ⓡ Ⓢ Ⓣ Ⓤ Ⓥ Ⓦ Ⓧ Ⓨ Ⓩ;
    suffix: " ";
}

@document url("https://www.example.com/")
{
  h1 {
    color: green;
  }
}
@document url("http://www.w3.org/"),
          url-prefix("http://www.w3.org/Style/"),
          domain("mozilla.org"),
          media-document("video"),
          regexp("https:.*") {
  /* CSS rules here apply to:
     - The page "http://www.w3.org/"
     - Any page whose URL begins with "http://www.w3.org/Style/"
     - Any page whose URL's host is "mozilla.org"
       or ends with ".mozilla.org"
     - Any standalone video
     - Any page whose URL starts with "https:" */

  /* Make the above-mentioned pages really ugly */
  body {
    color: purple;
    background: yellow;
  }
}


@font-face {
    font-family: "Trickster";
    src:
      local("Trickster"),
      url("trickster-COLRv1.otf") format("opentype") tech(color-COLRv1),
      url("trickster-outline.otf") format("opentype"),
      url("trickster-outline.woff") format("woff");
}
@font-face {
    font-family: "MyHelvetica";
    src: local("Helvetica Neue Bold"), local("HelveticaNeue-Bold"),
      url("MgOpenModernaBold.ttf");
    font-weight: bold;
}
   

/* At-rule for "nice-style" in Font One */
@font-feature-values Font One {
  @styleset {
    nice-style: 12;
  }
}

/* At-rule for "nice-style" in Font Two */
@font-feature-values Font Two {
  @styleset {
    nice-style: 4;
  }
}



/* Apply the at-rules with a single declaration */
.nice-look {
  font-variant-alternates: styleset(nice-style);
}


@font-palette-values --identifier {
    font-family: Bixa;
}
@import url(https://fonts.googleapis.com/css2?family=Bungee+Spice);
p {
  font-family: "Bungee Spice";
  font-size: 2rem;
}
@font-palette-values --Alternate {
  font-family: "Bungee Spice";
  override-colors:
    0 #00ffbb,
    1 #007744;
}

/*
@import url;
@import url layer;
@import url layer(layer-name);
@import url layer(layer-name) supports(supports-condition);
@import url layer(layer-name) supports(supports-condition) list-of-media-queries;
@import url layer(layer-name) list-of-media-queries;
@import url supports(supports-condition);
@import url supports(supports-condition) list-of-media-queries;
@import url list-of-media-queries;
*/

@import url("my-imported-styles.css");
* {
  margin: 0;
  padding: 0;
}
@import "custom.css";
@import url("chrome://communicator/skin/");
@import url("fineprint.css") print;
@import url("bluish.css") print, screen;
@import "common.css" screen;
@import url("landscape.css") screen and (orientation: landscape);
@import url("gridy.css") supports(display: grid) screen and (max-width: 400px);
@import url("flexy.css") supports((not (display: grid)) and (display: flex)) screen
  and (max-width: 400px);
@import url("whatever.css") supports((selector(h2 > p)) and
  (font-tech(color-COLRv1)));
@import "theme.css" layer(utilities);
@import url(headings.css) layer(default);
@import url(links.css) layer(default);

@layer default {
  audio[controls] {
    display: block;
  }
}
@import "theme.css" layer();
@import "style.css" layer;




@keyframes slidein {
    from {
      transform: translateX(0%);
    }
  
    to {
      transform: translateX(100%);
    }
}
@keyframes identifier {
    0% {
      top: 0;
      left: 0;
    }
    30% {
      top: 50px;
    }
    68%,
    72% {
      left: 50px;
    }
    100% {
      top: 100px;
      left: 100%;
    }
}
@keyframes identifier {
    0% {
      top: 0;
    }
    50% {
      top: 30px;
      left: 20px;
    }
    50% {
      top: 10px;
    }
    100% {
      top: 0;
    }
}
@keyframes important1 {
    from {
      margin-top: 50px;
    }
    50% {
      margin-top: 150px !important; /* ignored */
    }
    to {
      margin-top: 100px;
    }
}
  
@keyframes important2 {
    from {
      margin-top: 50px;
      margin-bottom: 100px;
    }
    to {
      margin-top: 150px !important; /* ignored */
      margin-bottom: 50px;
    }
}
  
    



@layer utilities {
    .padding-sm {
      padding: 0.5rem;
    }
  
    .padding-lg {
      padding: 0.8rem;
    }
}
@layer utilities;
@layer theme, layout, utilities;
@layer {
    p {
      margin-block: 1rem;
    }
}
@import "theme.css" layer(utilities);
@layer framework {
    @layer layout {
    }
}
@layer framework.layout {
    p {
      margin-block: 1rem;
    }
}
p {
    color: rebeccapurple;
}
@layer type {
    .box p {
      font-weight: bold;
      font-size: 1.3em;
      color: green;
    }
}






@media (hover: hover) {
    abbr:hover {
      color: limegreen;
      transition-duration: 1s;
    }
}
  
@media not all and (hover: hover) {
    abbr::after {
      content: ' (' attr(title) ')';
    }
}
/* At the top level of your code */
@media screen and (min-width: 900px) {
  article {
    padding: 1rem 3rem;
  }
}

/* Nested within another conditional at-rule */
@supports (display: flex) {
  @media screen and (min-width: 900px) {
    article {
      display: flex;
    }
  }
}
@media print {
    body {
      font-size: 10pt;
    }
}
  
@media screen {
    body {
      font-size: 13px;
    }
}
  
@media screen, print {
    body {
      line-height: 1.2;
    }
}
  
@media only screen and (min-width: 320px) and (max-width: 480px) and (resolution: 150dpi) {
    body {
      line-height: 1.4;
    }
}
@media (height > 600px) {
    body {
      line-height: 1.4;
    }
}  
@media (400px <= width <= 700px) {
    body {
      line-height: 1.4;
    }
}
  
  




@namespace url(http://www.w3.org/1999/xhtml);
@namespace svg url(http://www.w3.org/2000/svg);

/* This matches all XHTML <a> elements, as XHTML is the default unprefixed namespace */
a {
}

/* This matches all SVG <a> elements */
svg|a {
}

/* This matches both XHTML and SVG <a> elements */
*|a {
}






/* Targets all the pages */
@page {
  size: 8.5in 9in;
  margin-top: 4in;
}

/* Targets all even-numbered pages */
@page :left {
  margin-top: 4in;
}

/* Targets all odd-numbered pages */
@page :right {
  size: 11in;
  margin-top: 4in;
}

/* Targets all selectors with `page: wide;` set */
@page wide {
  size: a4 landscape;
}

@page {
  /* margin box at top right showing page number */
  @top-right {
    content: "Page " counter(pageNumber);
  }
}
@page {
    @top-left {
      /* page-margin-properties */
    }
}
@page {
    size: landscape;
    margin: 20%;
}
  
section {
    page-break-after: always;
    break-after: page;
}
  
@media print {
    button {
      display: none;
    }
}
    
  






@property --property-name {
    syntax: "<color>";
    inherits: false;
    initial-value: #c0ffee;
}
@property --item-size {
    syntax: "<percentage>";
    inherits: true;
    initial-value: 40%;
}
.container {
    display: flex;
    height: 200px;
    border: 1px dashed black;
  
    /* set custom property values on parent */
    --item-size: 20%;
    --item-color: orange;
}

/* use custom properties to set item size and background color */
.item {
    width: var(--item-size);
    height: var(--item-size);
    background-color: var(--item-color);
}

/* set custom property values on element itself */
.two {
    --item-size: initial;
    --item-color: inherit;
}

.three {
    /* invalid values */
    --item-size: 1000px;
    --item-color: xyz;
}
  








@scope (scope root) to (scope limit) {
    rulesets
}
@scope (.article-body) to (figure) {
    img {
        border: 5px solid black;
        background-color: goldenrod;
    }
}


@scope (.article-body) {
    img {
      border: 5px solid black;
      background-color: goldenrod;
    }
}

  
@scope (.feature) {
    :scope {
        background: rebeccapurple;
        color: antiquewhite;
        font-family: sans-serif;
    }
}

/* figure is only a limit when it is a direct child of the :scope */
@scope (.article-body) to (:scope > figure) { }
/* figure is only a limit when the :scope is inside .feature */
@scope (.article-body) to (.feature :scope figure) { }

@scope (.article-hero, .article-body) to (figure) {
    img {
      border: 5px solid black;
      background-color: goldenrod;
    }
}
@scope (.article-body) {
    /* img has a specificity of 0-0-1, as expected */
    img { }
}
@scope (figure, #primary) {
    & img { }
}
  
@scope (.feature) {
    /* Selects a .feature inside the matched root .feature */
    & & { ... }
  
    /* Doesn't work */
    :scope :scope { ... }
}
@scope (.light-theme) {
    :scope {
      background: #ccc;
    }
    p {
      color: black;
    }
  }
  
  @scope (.dark-theme) {
    :scope {
      background: #333;
    }
    p {
      color: white;
    }
}
@scope (.light-scheme) {
    :scope {
      background-color: plum;
    }
  
    a {
      color: darkmagenta;
    }
}
  
@scope (.dark-scheme) {
    :scope {
      background-color: darkmagenta;
      color: antiquewhite;
    }
  
    a {
      color: plum;
    }
}
/* Scoped CSS */

@scope (.feature) {
  :scope {
    background: rebeccapurple;
    color: antiquewhite;
    font-family: sans-serif;
  }

  figure {
    background-color: white;
    border: 2px solid black;
    color: black;
    padding: 10px;
  }
}

/* Donut scope */

@scope (.feature) to (figure) {
  img {
    border: 5px solid black;
    background-color: goldenrod;
  }
}











[popover]:popover-open {
    opacity: 1;
    transform: scaleX(1);
}
@starting-style {
    [popover]:popover-open {
      opacity: 0;
      transform: scaleX(0);
    }
}
[popover]:popover-open {
    opacity: 1;
    transform: scaleX(1);
  
    @starting-style {
      opacity: 0;
      transform: scaleX(0);
    }
}
#target {
    transition: background-color 1.5s;
    background-color: green;
  }
  
  @starting-style {
    #target {
      background-color: transparent;
    }
}

#target {
    transition-property: opacity, display;
    transition-duration: 0.5s;
    display: block;
    opacity: 1;
    @starting-style {
      opacity: 0;
    }
  }
  
  #target.hidden {
    display: none;
    opacity: 0;
}

div {
    background-color: yellow;
    transition: background-color 3s;
  }
  
  div.showing {
    background-color: skyblue;
  }
  
  @starting-style {
    div.showing {
      background-color: red;
    }
}
html {
    font-family: Arial, Helvetica, sans-serif;
  }
  
  [popover]:popover-open {
    opacity: 1;
    transform: scaleX(1);
  }
  
  [popover] {
    font-size: 1.2rem;
    padding: 10px;
  
    /* Final state of the exit animation */
    opacity: 0;
    transform: scaleX(0);
  
    transition:
      opacity 0.7s,
      transform 0.7s,
      overlay 0.7s allow-discrete,
      display 0.7s allow-discrete;
    /* Equivalent to
    transition: all 0.7s allow-discrete; */
  }
  
  /* Include after the [popover]:popover-open rule */
  @starting-style {
    [popover]:popover-open {
      opacity: 0;
      transform: scaleX(0);
    }
  }
  
  /* Transition for the popover's backdrop */
  [popover]::backdrop {
    background-color: rgb(0 0 0 / 0%);
    transition:
      display 0.7s allow-discrete,
      overlay 0.7s allow-discrete,
      background-color 0.7s;
    /* Equivalent to
    transition: all 0.7s allow-discrete; */
  }
  
  [popover]:popover-open::backdrop {
    background-color: rgb(0 0 0 / 25%);
  }
  
  /* Nesting (&) is not supported for pseudo-elements
  so specify a standalone starting-style block. */
  @starting-style {
    [popover]:popover-open::backdrop {
      background-color: rgb(0 0 0 / 0%);
    }
}

div {
    flex: 1;
    border: 1px solid gray;
    position: relative;
    background: linear-gradient(
      to right,
      rgb(255 255 255 / 0%),
      rgb(255 255 255 / 50%)
    );
    opacity: 1;
    scale: 1 1;
  
    transition:
      opacity 0.7s,
      scale 0.7s,
      display 0.7s allow-discrete
      all 0.7s allow-discrete;
    /* Equivalent to
    transition: all 0.7s allow-discrete; */
  }
  
  /* Include after the `div` rule */
  @starting-style {
    div {
      opacity: 0;
      scale: 1 0;
    }
  }
  
  .fade-out {
    opacity: 0;
    display: none;
    scale: 1 0;
  }
  
  div > button {
    font-size: 1.6rem;
    background: none;
    border: 0;
    text-shadow: 2px 1px 1px white;
    border-radius: 15px;
    position: absolute;
    top: 1px;
    right: 1px;
    cursor: pointer;
}











@supports (display: flex) {
    .flex-container > * {
      text-shadow: 0 0 2px blue;
      float: none;
    }
  
    .flex-container {
      display: flex;
    }
}


@supports (transform-origin: 5% 5%) {
}
@supports selector(h2 > p) {
}
@supports font-tech(color-COLRv1) {
}
@supports font-format(opentype) {
}
@supports not (transform-origin: 10em 10em 10em) {
}
@supports not (not (transform-origin: 2px)) {
}
@supports (display: grid) and (not (display: inline-grid)) {
}
@supports (display: table-cell) and (display: list-item) {
}
@supports (display: table-cell) and (display: list-item) and (display: contents) {
}
@supports (display: table-cell) and
  ((display: list-item) and (display: contents)) {
}
@supports (transform-style: preserve) or (-moz-transform-style: preserve) {
}

@supports (transform-style: preserve) or (-moz-transform-style: preserve) or (-webkit-transform-style: preserve) {}

@supports (transform-style: preserve-3d) or ((-moz-transform-style: preserve-3d) or (-webkit-transform-style: preserve-3d)) {}

@supports (animation-name: test) {
    /* CSS applied when animations are supported without a prefix */
    @keyframes my-animation {
      /* Other at-rules can be nested inside */
    }
}

@supports (text-stroke: 10px) or (-webkit-text-stroke: 10px) {
    /* CSS applied when text-stroke, prefixed or not, is supported */
}
  
@supports not ((text-align-last: justify) or (-moz-text-align-last: justify)) {
    /* CSS to provide fallback alternative for text-align-last: justify */
}
/* This rule won't be applied in browsers that don't support :has() */
ul:has(> li li) {
  /* CSS is applied when the :has(...) pseudo-class is supported */
}

@supports not selector(:has(a, b)) {
  /* Fallback for when :has() is unsupported */
  ul > li,
  ol > li {
    /* The above expanded for browsers that don't support :has(...) */
  }
}

/* Note: So far, there's no browser that supports the `of` argument of :nth-child(...) */
@supports selector(:nth-child(1n of a, b)) {
  /* This rule needs to be inside the @supports block, otherwise
     it will be partially applied in browsers which don't support
     the `of` argument of :nth-child(...) */
  :is(:nth-child(1n of ul, ol) a, details > summary) {
    /* CSS applied when the :is(...) selector and
       the `of` argument of :nth-child(...) are both supported */
  }
}

@import url("https://fonts.googleapis.com/css2?family=Bungee+Spice");

@supports font-tech(color-COLRv1) {
  body {
    font-family: "Bungee Spice";
  }
}
@font-face {
    font-family: "Bungee Spice";
    src:
      url("https://fonts.googleapis.com/css2?family=Bungee+Spice") tech(color-COLRv1),
      url("Bungee-fallback.otf") format("opentype");
}


@supports font-format(woff2) {
  body {
    font-family: "Open Sans";
    src: url("open-sans.woff2") format("woff2");
  }
} 
"##;




pub const ATTRIBUTE_SELECTORS_CSS: &'static str = r##"
/* <a> elements with a title attribute */
a[title] {
  color: purple;
}

/* <a> elements with an href matching "https://example.org" */
a[href="https://example.org"]
{
  color: green;
}

/* <a> elements with an href containing "example" */
a[href*="example"] {
  font-size: 2em;
}

/* <a> elements with an href ending ".org", case-insensitive */
a[href$=".org" i] {
  font-style: italic;
}

/* <a> elements whose class attribute contains the word "logo" */
a[class~="logo"] {
  padding: 2px;
}



a {
    color: blue;
  }
  
  /* Internal links, beginning with "#" */
  a[href^="#"] {
    background-color: gold;
  }
  
  /* Links with "example" anywhere in the URL */
  a[href*="example"] {
    background-color: silver;
  }
  
  /* Links with "insensitive" anywhere in the URL,
     regardless of capitalization */
  a[href*="insensitive" i] {
    color: cyan;
  }
  
  /* Links with "cAsE" anywhere in the URL,
  with matching capitalization */
  a[href*="cAsE" s] {
    color: pink;
  }
  
  /* Links that end in ".org" */
  a[href$=".org"] {
    color: red;
  }
  
  /* Links that start with "https://" and end in ".org" */
  a[href^="https://"][href$=".org"]
  {
    color: green;
  }
  

  /* All divs with a `lang` attribute are bold. */
div[lang] {
  font-weight: bold;
}

/* All divs without a `lang` attribute are italicized. */
div:not([lang]) {
  font-style: italic;
}

/* All divs in US English are blue. */
div[lang~="en-us"] {
  color: blue;
}

/* All divs in Portuguese are green. */
div[lang="pt"] {
  color: green;
}

/* All divs in Chinese are red, whether
   simplified (zh-Hans-CN) or traditional (zh-Hant-TW). */
div[lang|="zh"] {
  color: red;
}

/* All divs with a Traditional Chinese
   `data-lang` are purple. */
/* Note: You could also use hyphenated attributes
   without double quotes */
div[data-lang="zh-Hant-TW"] {
  color: purple;
}


/* Case-sensitivity depends on document language */
ol[type="a"]:first-child {
  list-style-type: lower-alpha;
  background: red;
}

ol[type="i" s] {
  list-style-type: lower-alpha;
  background: lime;
}

ol[type="I" s] {
  list-style-type: upper-alpha;
  background: grey;
}

ol[type="a" i] {
  list-style-type: upper-alpha;
  background: green;
}
"##;



pub const CLASS_SELECTORS_CSS: &'static str = r##"
/* All elements with class="spacious" */
.spacious {
  margin: 2em;
}

/* All <li> elements with class="spacious" */
li.spacious {
  margin: 2em;
}

/* All <li> elements with a class list that includes both "spacious" and "elegant" */
/* For example, class="elegant retro spacious" */
li.spacious.elegant {
  margin: 2em;
}
.red {
    color: #f33;
}

.yellow-bg {
    background: #ffa;
}

.fancy {
    font-weight: bold;
    text-shadow: 4px 4px 3px #77f;
}  
"##;



pub const ID_SELECTORS_CSS: &'static str = r##"
/* The element with id="demo" */
#demo {
  border: red 2px solid;
}
#identified {
    background-color: skyblue;
}  
"##;

pub const NESTED_CSS_SELECTORS: &'static str = r##"
parentRule {
    /* parent rule style properties */
    & childRule {
      /* child rule style properties */
    }
}
.parent-rule {
    /* parent rule properties */
    .child-rule {
      /* child rule properties */
    }
}
.parent-rule {
    /* parent rule properties */
    :hover {
      /* child rule properties */
    }
  }
  
  /* the browser parses the above nested rules as shown below */
  .parent-rule {
    /* parent rule properties */
  }
  
  .parent-rule *:hover {
    /* child rule properties */
}
.parent-rule {
    /* parent rule properties */
    &:hover {
      /* child rule properties */
    }
  }
  
  /* the browser parses the above nested rules as shown below */
  .parent-rule {
    /* parent rule properties */
  }
  
  .parent-rule:hover {
    /* child rule properties */
}
.card {
    /* .card styles */
    .featured & {
      /* .featured .card styles */
    }
  }
  
  /* the browser parses above nested rules as */
  
  .card {
    /* .card styles */
  }
  
  .featured .card {
    /* .featured .card styles */
}
.card {
    /* .card styles */
    .featured & & & {
      /* .featured .card .card .card styles */
    }
  }
  
  /* the browser parses above nested rules as */
  
  .card {
    /* .card styles */
  }
  
  .featured .card .card .card {
    /* .featured .card .card .card styles */
}

.example {
    font-family: system-ui;
    font-size: 1.2rem;
  }
  
  .example > a {
    color: tomato;
  }
  
  .example > a:hover,
  .example > a:focus {
    color: ivory;
    background-color: tomato;
}

.example {
    font-family: system-ui;
    font-size: 1.2rem;
    & > a {
      color: tomato;
      &:hover,
      &:focus {
        color: ivory;
        background-color: tomato;
      }
    }
}
& {
    color: blue;
    font-weight: bold;
}
  
&:hover {
    background-color: wheat;
}
"##;


pub const TYPE_SELECTORS_CSS: &'static str = r##"
/* All <a> elements. */
a {
  color: red;
}
span {
    background-color: skyblue;
}
@namespace example url(http://www.example.com);
example|h1 {
  color: blue;
}
"##;

pub const UNIVERSAL_SELECTORS_CSS: &'static str = r##"
* [lang^="en"] {
    color: green;
}
  
*.warning {
    color: red;
}
  
*#maincontent {
    border: 1px solid blue;
}
  
.floating {
    float: left;
}
  
/* automatically clear the next sibling after a floating element */
.floating + * {
    clear: left;
}

@namespace example url(http://www.example.com);
example|* {
  color: blue;
}
"##;

/// Index of the first character, from index `j` on, that starts after byte `t`
/// (the length when there is none).
pub open spec fn first_after(s: Seq<char>, t: int, j: int) -> int
    decreases s.len() - j,
{
    if 0 <= j < s.len() && bp(s, j) <= t {
        first_after(s, t, j + 1)
    } else {
        j
    }
}

/// Number of characters that start at or before byte `t`.
pub open spec fn starting_by(s: Seq<char>, t: int) -> int {
    first_after(s, t, 0)
}

proof fn lemma_first_after(s: Seq<char>, t: int, j: int)
    requires
        0 <= j <= s.len(),
    ensures
        j <= first_after(s, t, j) <= s.len(),
        forall|k: int| j <= k < first_after(s, t, j) ==> bp(s, k) <= t,
        forall|k: int| first_after(s, t, j) <= k < s.len() ==> bp(s, k) > t,
    decreases s.len() - j,
{
    if j < s.len() && bp(s, j) <= t {
        lemma_first_after(s, t, j + 1);
    } else if j < s.len() {
        assert forall|k: int| j <= k < s.len() implies bp(s, k) > t by {
            crate::text::lemma_bp_mono(s, j, k);
        }
    }
}

proof fn lemma_starting_by(s: Seq<char>, t: int)
    ensures
        0 <= starting_by(s, t) <= s.len(),
        forall|k: int| 0 <= k < s.len() ==> (bp(s, k) <= t <==> k < starting_by(s, t)),
{
    lemma_first_after(s, t, 0);
}

proof fn lemma_starting_by_mono(s: Seq<char>, t: int, u: int)
    requires
        t <= u,
    ensures
        starting_by(s, t) <= starting_by(s, u),
{
    lemma_starting_by(s, t);
    lemma_starting_by(s, u);
    if starting_by(s, t) > starting_by(s, u) {
        let k = starting_by(s, u);
        assert(bp(s, k) <= t);
    }
}

/// The text with the characters that start in `ds..=de` (bytes) replaced by a
/// copy of those that start in `cs..=ce`; a character counts as starting at or
/// before a bound when its byte offset is at most the bound.
pub open spec fn mutated(s: Seq<char>, cs: int, ce: int, ds: int, de: int) -> Seq<char> {
    s.subrange(0, starting_by(s, ds)) + s.subrange(starting_by(s, cs), starting_by(s, ce))
        + s.subrange(starting_by(s, de), s.len() as int)
}

/// `fastrand::usize(lo..hi)`: a random number at least `lo` and below `hi`.
#[verifier::external_body]
fn random_usize(lo: usize, hi: usize) -> (r: usize)
    requires
        lo < hi,
    ensures
        lo <= r < hi,
{
    fastrand::usize(lo..hi)
}

/// Replaces the characters counted up to `de` but not up to `ds` by a copy of
/// those counted up to `ce` but not up to `cs`, where a character is counted up to
/// a bound when its byte offset is at most the bound.
pub fn mutate_ascii_with(text: &mut String, cs: usize, ce: usize, ds: usize, de: usize)
    requires
        cs <= ce,
        ds <= de,
    ensures
        final(text)@ == mutated(old(text)@, cs as int, ce as int, ds as int, de as int),
{
    let total = str_len(text.as_str());
    let v = collect_chars(text.as_str());
    let ghost s = v@;
    proof {
        lemma_starting_by(s, cs as int);
        lemma_starting_by(s, ce as int);
        lemma_starting_by(s, ds as int);
        lemma_starting_by(s, de as int);
        crate::text::lemma_bp_zero(s);
    }
    let mut copy_range_idx_start: usize = 0;
    let mut copy_range_idx_end: usize = 0;
    let mut del_range_idx_start: usize = 0;
    let mut del_range_idx_end: usize = 0;
    let mut i: usize = 0;
    let mut j: usize = 0;
    while j < v.len()
        invariant
            s == v@,
            s == text@,
            total == blen(s),
            total <= isize::MAX,
            j <= s.len(),
            i == bp(s, j as int),
            0 <= starting_by(s, cs as int) <= s.len(),
            0 <= starting_by(s, ce as int) <= s.len(),
            0 <= starting_by(s, ds as int) <= s.len(),
            0 <= starting_by(s, de as int) <= s.len(),
            forall|k: int| 0 <= k < s.len() ==> (bp(s, k) <= cs <==> k < starting_by(s, cs as int)),
            forall|k: int| 0 <= k < s.len() ==> (bp(s, k) <= ce <==> k < starting_by(s, ce as int)),
            forall|k: int| 0 <= k < s.len() ==> (bp(s, k) <= ds <==> k < starting_by(s, ds as int)),
            forall|k: int| 0 <= k < s.len() ==> (bp(s, k) <= de <==> k < starting_by(s, de as int)),
            copy_range_idx_start == bp(s, if j < starting_by(s, cs as int) { j as int } else { starting_by(s, cs as int) }),
            copy_range_idx_end == bp(s, if j < starting_by(s, ce as int) { j as int } else { starting_by(s, ce as int) }),
            del_range_idx_start == bp(s, if j < starting_by(s, ds as int) { j as int } else { starting_by(s, ds as int) }),
            del_range_idx_end == bp(s, if j < starting_by(s, de as int) { j as int } else { starting_by(s, de as int) }),
        decreases s.len() - j,
    {
        let ch = v[j];
        let bytes_size = len_utf8(ch);
        proof {
            crate::text::lemma_bp_step(s, j as int);
            crate::text::lemma_bp_mono(s, j + 1, s.len() as int);
            crate::text::lemma_bp_full(s);
        }
        if i <= cs {
            copy_range_idx_start += bytes_size;
        }
        if i <= ce {
            copy_range_idx_end += bytes_size;
        }
        if i <= ds {
            del_range_idx_start += bytes_size;
        }
        if i <= de {
            del_range_idx_end += bytes_size;
        }
        i += bytes_size;
        j += 1;
    }
    proof {
        crate::text::lemma_cidx_bp(s, starting_by(s, cs as int));
        crate::text::lemma_cidx_bp(s, starting_by(s, ce as int));
        crate::text::lemma_cidx_bp(s, starting_by(s, ds as int));
        crate::text::lemma_cidx_bp(s, starting_by(s, de as int));
        crate::text::lemma_cidx_bp(s, 0);
        crate::text::lemma_cidx_bp(s, s.len() as int);
        crate::text::lemma_bp_full(s);
        lemma_starting_by_mono(s, cs as int, ce as int);
        lemma_starting_by_mono(s, ds as int, de as int);
        crate::text::lemma_bp_mono(s, starting_by(s, cs as int), starting_by(s, ce as int));
        crate::text::lemma_bp_mono(s, starting_by(s, ds as int), starting_by(s, de as int));
        crate::text::lemma_bp_mono(s, starting_by(s, de as int), s.len() as int);
    }
    let replace_text = str_slice(text.as_str(), copy_range_idx_start, copy_range_idx_end).to_owned();
    let mut result = str_slice(text.as_str(), 0, del_range_idx_start).to_owned();
    result.append(replace_text.as_str());
    result.append(str_slice(text.as_str(), del_range_idx_end, total));
    *text = result;
}

/// Replaces a random run of characters of `text` with a copy of another random run.
pub fn mutate_ascii(text: &mut String)
    requires
        old(text)@.len() > 0,
    ensures
        exists|cs: int, ce: int, ds: int, de: int|
            0 <= cs <= ce < old(text)@.len() && 0 <= ds <= de < blen(old(text)@) && final(text)@
                == mutated(old(text)@, cs, ce, ds, de),
{
    let chars_num = collect_chars(text.as_str()).len();
    let len = str_len(text.as_str());
    proof {
        crate::text::lemma_bp_mono(text@, 0, text@.len() as int);
        crate::text::lemma_bp_zero(text@);
        crate::text::lemma_bp_full(text@);
    }
    let copy_range_char_start = random_usize(0, chars_num);
    let copy_range_char_end = random_usize(copy_range_char_start, chars_num);
    let del_range_char_start = random_usize(0, chars_num);
    let del_range_char_end = random_usize(del_range_char_start, len);
    mutate_ascii_with(
        text,
        copy_range_char_start,
        copy_range_char_end,
        del_range_char_start,
        del_range_char_end,
    );
}

} // verus!
